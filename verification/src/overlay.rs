//! What a model said about a chunk of video: finding the JSON object in its
//! answer, and reading an overlay or a list of moments from it.

use vstd::prelude::*;

use crate::ieee::{double, Double, Single};
use crate::json::{json_views, parse_json, read_json, Json, JsonView};
use crate::sort::{sorted, stable_sort, views, Ranked};
use crate::text::{
    chars_of, clipped, contains, lowered, occurs, opt_text, owned, same, text_between, texts,
    to_lower, trim, trimmed, truncate_context, underscore, underscored,
};

verus! {

/// What a chunk shows, in the words of a model.
#[derive(Debug)]
pub struct SemanticOverlay {
    pub event_type: String,
    pub object_label: String,
    pub summary: String,
    pub description: String,
    pub confidence: Single,
}

/// What an overlay is.
pub ghost struct OverlayView {
    pub event_type: Seq<char>,
    pub object_label: Seq<char>,
    pub summary: Seq<char>,
    pub description: Seq<char>,
    pub confidence: Single,
}

impl View for SemanticOverlay {
    type V = OverlayView;

    open spec fn view(&self) -> OverlayView {
        OverlayView {
            event_type: self.event_type@,
            object_label: self.object_label@,
            summary: self.summary@,
            description: self.description@,
            confidence: self.confidence,
        }
    }
}

/// What an optional overlay is.
pub open spec fn opt_overlay(o: Option<SemanticOverlay>) -> Option<OverlayView> {
    match o {
        Some(v) => Some(v@),
        None => None,
    }
}

/// Something heard or seen for a while, on the timeline of its clip and on that
/// of its source.
#[derive(Debug)]
pub struct SemanticMoment {
    pub start_offset_ms: u64,
    pub end_offset_ms: u64,
    pub start_pts_ms: u64,
    pub end_pts_ms: u64,
    pub modalities: Vec<String>,
    pub kind: String,
    pub description: String,
    pub intent: Option<String>,
    pub audio_visual_relation: Option<String>,
    pub confidence: Single,
}

/// What a moment is.
pub ghost struct MomentView {
    pub start_offset_ms: u64,
    pub end_offset_ms: u64,
    pub start_pts_ms: u64,
    pub end_pts_ms: u64,
    pub modalities: Seq<Seq<char>>,
    pub kind: Seq<char>,
    pub description: Seq<char>,
    pub intent: Option<Seq<char>>,
    pub audio_visual_relation: Option<Seq<char>>,
    pub confidence: Single,
}

impl View for SemanticMoment {
    type V = MomentView;

    open spec fn view(&self) -> MomentView {
        MomentView {
            start_offset_ms: self.start_offset_ms,
            end_offset_ms: self.end_offset_ms,
            start_pts_ms: self.start_pts_ms,
            end_pts_ms: self.end_pts_ms,
            modalities: texts(self.modalities@),
            kind: self.kind@,
            description: self.description@,
            intent: opt_text(self.intent),
            audio_visual_relation: opt_text(self.audio_visual_relation),
            confidence: self.confidence,
        }
    }
}

/// The order of beginnings, then of ends.
pub struct ByTime;

impl Ranked<ByTime> for SemanticMoment {
    open spec fn ranks_before(a: MomentView, b: MomentView) -> bool {
        a.start_offset_ms < b.start_offset_ms || (a.start_offset_ms == b.start_offset_ms
            && a.end_offset_ms <= b.end_offset_ms)
    }

    fn may_precede(&self, other: &Self) -> (r: bool) {
        self.start_offset_ms < other.start_offset_ms || (self.start_offset_ms
            == other.start_offset_ms && self.end_offset_ms <= other.end_offset_ms)
    }

    proof fn rank_is_total(a: MomentView, b: MomentView) {
    }

    proof fn rank_is_transitive(a: MomentView, b: MomentView, c: MomentView) {
    }
}

/// Why an answer could not be read.
#[derive(Clone, Copy, Debug, PartialEq, Eq, Structural)]
pub enum SemanticParseError {
    EmptyResponse,
    JsonObjectNotFound,
    InvalidJson,
    SchemaMismatch,
}

impl SemanticParseError {
    /// The name of the reason.
    pub open spec fn name(self) -> Seq<char> {
        match self {
            SemanticParseError::EmptyResponse => "empty_response"@,
            SemanticParseError::JsonObjectNotFound => "json_object_not_found"@,
            SemanticParseError::InvalidJson => "invalid_json"@,
            SemanticParseError::SchemaMismatch => "schema_mismatch"@,
        }
    }

    /// The name of the reason.
    pub fn as_str(&self) -> (r: &'static str)
        ensures
            r@ == self.name(),
    {
        match self {
            SemanticParseError::EmptyResponse => "empty_response",
            SemanticParseError::JsonObjectNotFound => "json_object_not_found",
            SemanticParseError::InvalidJson => "invalid_json",
            SemanticParseError::SchemaMismatch => "schema_mismatch",
        }
    }
}

// ---------------------------------------------------------------- braces
/// Where a scan of JSON-like text stands: how many braces are open, and
/// whether it is inside a string, and there behind a backslash.
pub ghost struct Scan {
    pub depth: int,
    pub in_string: bool,
    pub escaped: bool,
}

/// The scan after one more character.
pub open spec fn scan_step(scan: Scan, c: char) -> Scan {
    if scan.in_string {
        if scan.escaped {
            Scan { escaped: false, ..scan }
        } else if c == '\\' {
            Scan { escaped: true, ..scan }
        } else if c == '"' {
            Scan { in_string: false, ..scan }
        } else {
            scan
        }
    } else if c == '"' {
        Scan { in_string: true, ..scan }
    } else if c == '{' {
        Scan { depth: scan.depth + 1, ..scan }
    } else if c == '}' {
        Scan { depth: scan.depth - 1, ..scan }
    } else {
        scan
    }
}

/// The scan after a whole text.
pub open spec fn scan_of(s: Seq<char>) -> Scan
    decreases s.len(),
{
    if s.len() == 0 {
        Scan { depth: 0, in_string: false, escaped: false }
    } else {
        scan_step(scan_of(s.drop_last()), s.last())
    }
}

/// The brace that ends the first `k` characters is outside strings and leaves
/// none open.
pub open spec fn closes_at(s: Seq<char>, k: int) -> bool {
    0 < k <= s.len() && s[k - 1] == '}' && !scan_of(s.take(k - 1)).in_string && scan_of(
        s.take(k),
    ).depth == 0
}

/// How many characters the object takes that begins a text, counted from
/// `k` characters on.
pub open spec fn object_length_from(s: Seq<char>, k: int) -> Option<int>
    decreases s.len() + 1 - k,
{
    if k > s.len() {
        None
    } else if closes_at(s, k) {
        Some(k)
    } else {
        object_length_from(s, k + 1)
    }
}

/// How many characters the object takes that begins a text.
pub open spec fn object_length(s: Seq<char>) -> Option<int> {
    object_length_from(s, 1)
}

/// How many of `chars[from..]` the object takes that begins there.
fn extract_balanced_json_object(chars: &Vec<char>, from: usize) -> (r: Option<usize>)
    requires
        from < chars@.len(),
        chars@[from as int] == '{',
    ensures
        match r {
            Some(k) => object_length(chars@.skip(from as int)) == Some(k as int) && from + k
                <= chars@.len(),
            None => object_length(chars@.skip(from as int)) is None,
        },
{
    let ghost s = chars@.skip(from as int);
    let n: usize = chars.len();
    let mut depth: usize = 0;
    let mut in_string: bool = false;
    let mut escaped: bool = false;
    let mut i: usize = from;
    assert(s.take(0) =~= Seq::empty());
    while i < n
        invariant
            n == chars@.len(),
            from <= i <= n,
            s == chars@.skip(from as int),
            s[0] == '{',
            depth <= i - from,
            i > from ==> depth >= 1,
            i == from ==> depth == 0 && !in_string,
            scan_of(s.take(i - from)) == (Scan { depth: depth as int, in_string, escaped }),
            object_length(s) == object_length_from(s, i - from + 1),
        decreases n - i,
    {
        let ch = chars[i];
        let ghost k = i - from;
        assert(s.take(k + 1).drop_last() =~= s.take(k));
        assert(s.take(k + 1).last() == ch);
        if in_string {
            if escaped {
                escaped = false;
            } else if ch == '\\' {
                escaped = true;
            } else if ch == '"' {
                in_string = false;
            }
        } else if ch == '"' {
            in_string = true;
        } else if ch == '{' {
            depth += 1;
        } else if ch == '}' {
            depth -= 1;
            if depth == 0 {
                assert(closes_at(s, k + 1));
                return Some(i - from + 1);
            }
        }
        assert(!closes_at(s, k + 1));
        i += 1;
    }
    None
}

/// The first JSON object that stands in a text from `at` on.
pub open spec fn object_from(t: Seq<char>, at: int, saw_balanced: bool) -> Result<
    JsonView,
    SemanticParseError,
>
    decreases t.len() - at,
{
    if at >= t.len() {
        if saw_balanced {
            Err(SemanticParseError::InvalidJson)
        } else {
            Err(SemanticParseError::JsonObjectNotFound)
        }
    } else if t[at] != '{' {
        object_from(t, at + 1, saw_balanced)
    } else {
        match object_length(t.skip(at)) {
            None => object_from(t, at + 1, saw_balanced),
            Some(k) => match read_json(t.subrange(at, at + k)) {
                Some(v) => Ok(v),
                None => object_from(t, at + 1, true),
            },
        }
    }
}

/// The first JSON object in a text: each opening brace is tried in turn, with
/// all up to the brace that closes it.
pub fn parse_first_json_object(raw: &str) -> (r: Result<Json, SemanticParseError>)
    ensures
        match r {
            Ok(v) => object_from(raw@, 0, false) == Ok::<JsonView, SemanticParseError>(v@),
            Err(e) => object_from(raw@, 0, false) == Err::<JsonView, SemanticParseError>(e),
        },
{
    let chars = chars_of(raw);
    let n: usize = chars.len();
    let mut saw_balanced: bool = false;
    let mut start: usize = 0;
    while start < n
        invariant
            n == chars@.len(),
            chars@ == raw@,
            start <= n,
            object_from(raw@, 0, false) == object_from(raw@, start as int, saw_balanced),
        decreases n - start,
    {
        if chars[start] == '{' {
            match extract_balanced_json_object(&chars, start) {
                None => {},
                Some(k) => {
                    let candidate = text_between(&chars, start, start + k);
                    match parse_json(candidate.as_str()) {
                        Some(value) => {
                            return Ok(value);
                        },
                        None => {},
                    }
                    saw_balanced = true;
                },
            }
        }
        start += 1;
    }
    if saw_balanced {
        Err(SemanticParseError::InvalidJson)
    } else {
        Err(SemanticParseError::JsonObjectNotFound)
    }
}

// ---------------------------------------------------------------- names
/// The kind of event that an answer names, or the general one.
pub open spec fn event_name(raw: Seq<char>) -> Seq<char> {
    let name = lowered(trimmed(raw));
    if name == "scene_cut"@ || name == "artifact_suspected"@ || name == "keyframe_keep"@ {
        name
    } else {
        "context_observation"@
    }
}

/// The kind of event that an answer names, or the general one.
pub fn normalize_semantic_event(raw: &str) -> (r: String)
    ensures
        r@ == event_name(raw@),
{
    let name = to_lower(trim(raw).as_str());
    if same(name.as_str(), "scene_cut") || same(name.as_str(), "artifact_suspected") || same(
        name.as_str(),
        "keyframe_keep",
    ) {
        name
    } else {
        owned("context_observation")
    }
}

/// The label of an object, with underscores for spaces.
pub open spec fn object_name(raw: Seq<char>) -> Seq<char> {
    let name = underscored(lowered(trimmed(raw)), false);
    if name.len() == 0 {
        "frame_context"@
    } else {
        name
    }
}

/// The label of an object, with underscores for spaces.
pub fn normalize_semantic_object(raw: &str) -> (r: String)
    ensures
        r@ == object_name(raw@),
{
    let name = underscore(to_lower(trim(raw).as_str()).as_str(), false);
    if name.as_str().is_empty() {
        owned("frame_context")
    } else {
        name
    }
}

/// The kind of moment that an answer's wording points to.
pub open spec fn moment_kind(raw: Seq<char>) -> Seq<char> {
    let kind = underscored(lowered(trimmed(raw)), true);
    if kind == "speech"@ || occurs(kind, "dialog"@) || occurs(kind, "voice"@) || occurs(
        kind,
        "spoken"@,
    ) {
        "speech"@
    } else if kind == "sound_effect"@ || occurs(kind, "effect"@) || occurs(kind, "beep"@) || occurs(
        kind,
        "tone"@,
    ) || occurs(kind, "impact"@) {
        "sound_effect"@
    } else if occurs(kind, "music"@) {
        "music"@
    } else if occurs(kind, "ambient"@) || occurs(kind, "background"@) {
        "ambient"@
    } else if occurs(kind, "interaction"@) {
        "interaction"@
    } else if occurs(kind, "mechanical"@) || occurs(kind, "machine"@) {
        "mechanical"@
    } else {
        "other"@
    }
}

/// The kind of moment that an answer's wording points to.
pub fn normalize_moment_kind(raw: &str) -> (r: String)
    ensures
        r@ == moment_kind(raw@),
{
    let normalized = underscore(to_lower(trim(raw).as_str()).as_str(), true);
    let kind = normalized.as_str();
    if same(kind, "speech") || contains(kind, "dialog") || contains(kind, "voice") || contains(
        kind,
        "spoken",
    ) {
        owned("speech")
    } else if same(kind, "sound_effect") || contains(kind, "effect") || contains(kind, "beep")
        || contains(kind, "tone") || contains(kind, "impact") {
        owned("sound_effect")
    } else if contains(kind, "music") {
        owned("music")
    } else if contains(kind, "ambient") || contains(kind, "background") {
        owned("ambient")
    } else if contains(kind, "interaction") {
        owned("interaction")
    } else if contains(kind, "mechanical") || contains(kind, "machine") {
        owned("mechanical")
    } else {
        owned("other")
    }
}

/// The modality, sight or hearing, that a word points to.
pub open spec fn modality_of(raw: Seq<char>) -> Option<Seq<char>> {
    let name = lowered(trimmed(raw));
    if name == "video"@ || name == "visual"@ || occurs(name, "picture"@) {
        Some("video"@)
    } else if name == "audio"@ || occurs(name, "speech"@) || occurs(name, "sound"@) || occurs(
        name,
        "voice"@,
    ) || occurs(name, "music"@) {
        Some("audio"@)
    } else {
        None
    }
}

fn map_modality(raw: &str) -> (r: Option<&'static str>)
    ensures
        match r {
            Some(m) => modality_of(raw@) == Some(m@),
            None => modality_of(raw@) is None,
        },
{
    let normalized = to_lower(trim(raw).as_str());
    let name = normalized.as_str();
    if same(name, "video") || same(name, "visual") || contains(name, "picture") {
        Some("video")
    } else if same(name, "audio") || contains(name, "speech") || contains(name, "sound")
        || contains(name, "voice") || contains(name, "music") {
        Some("audio")
    } else {
        None
    }
}

/// A list with one more entry, unless it has it already.
pub open spec fn with_entry(list: Seq<Seq<char>>, entry: Seq<char>) -> Seq<Seq<char>> {
    if list.contains(entry) {
        list
    } else {
        list.push(entry)
    }
}

/// The modalities that a list of words points to, each once; `None` where an
/// item is no string.
pub open spec fn modalities_of(items: Seq<JsonView>) -> Option<Seq<Seq<char>>>
    decreases items.len(),
{
    if items.len() == 0 {
        Some(Seq::empty())
    } else {
        match (modalities_of(items.drop_last()), items.last().as_text()) {
            (Some(list), Some(word)) => match modality_of(word) {
                Some(m) => Some(with_entry(list, m)),
                None => Some(list),
            },
            _ => None,
        }
    }
}

/// Whether some text is in a list.
pub fn list_has(list: &Vec<String>, entry: &str) -> (r: bool)
    ensures
        r == texts(list@).contains(entry@),
{
    let mut i: usize = 0;
    while i < list.len()
        invariant
            i <= list@.len(),
            forall|k: int| 0 <= k < i ==> (#[trigger] list@[k])@ != entry@,
        decreases list@.len() - i,
    {
        if same(list[i].as_str(), entry) {
            assert(texts(list@)[i as int] == entry@);
            return true;
        }
        i += 1;
    }
    proof {
        if texts(list@).contains(entry@) {
            let k = choose|k: int| 0 <= k < texts(list@).len() && texts(list@)[k] == entry@;
            assert(list@[k]@ == entry@);
        }
    }
    false
}

proof fn lemma_modalities_fail(items: Seq<JsonView>, k: int)
    requires
        0 <= k <= items.len(),
        modalities_of(items.take(k)) is None,
    ensures
        modalities_of(items) is None,
    decreases items.len() - k,
{
    if k == items.len() {
        assert(items.take(k) =~= items);
    } else {
        assert(items.drop_last().take(k) =~= items.take(k));
        lemma_modalities_fail(items.drop_last(), k);
    }
}

fn read_modalities(items: &Vec<Json>) -> (r: Option<Vec<String>>)
    ensures
        match r {
            Some(list) => modalities_of(json_views(items@)) == Some(texts(list@)),
            None => modalities_of(json_views(items@)) is None,
        },
{
    let ghost all = json_views(items@);
    let mut out: Vec<String> = Vec::new();
    let mut i: usize = 0;
    assert(all.take(0) =~= Seq::empty());
    assert(texts(out@) =~= Seq::empty());
    while i < items.len()
        invariant
            i <= items@.len(),
            all == json_views(items@),
            modalities_of(all.take(i as int)) == Some(texts(out@)),
        decreases items@.len() - i,
    {
        assert(all.take(i + 1).drop_last() =~= all.take(i as int));
        assert(all.take(i + 1).last() == items@[i as int]@);
        match items[i].as_str() {
            None => {
                proof {
                    lemma_modalities_fail(all, i + 1);
                }
                return None;
            },
            Some(word) => match map_modality(word) {
                Some(mapped) => {
                    if !list_has(&out, mapped) {
                        let ghost before = texts(out@);
                        out.push(owned(mapped));
                        assert(texts(out@) =~= before.push(mapped@));
                    }
                },
                None => {},
            },
        }
        i += 1;
    }
    assert(all.take(i as int) =~= all);
    Some(out)
}

// ---------------------------------------------------------------- moments
/// The smaller of two numbers.
pub open spec fn lesser(a: u64, b: u64) -> u64 {
    if a <= b {
        a
    } else {
        b
    }
}

/// The sum of two times, or the last time there is.
pub open spec fn later(a: u64, b: u64) -> u64 {
    if a + b > u64::MAX {
        u64::MAX
    } else {
        (a + b) as u64
    }
}

/// What is in an optional text field: trimmed, not blank, at most 1024
/// characters.
pub open spec fn optional_text(v: JsonView, key: Seq<char>) -> Option<Seq<char>> {
    match v.text_at(key) {
        Some(s) => if trimmed(s).len() == 0 {
            None
        } else {
            Some(clipped(trimmed(s), 1024))
        },
        None => None,
    }
}

fn read_optional_text(v: &Json, key: &str) -> (r: Option<String>)
    ensures
        opt_text(r) == optional_text(v@, key@),
{
    match v.text_at(key) {
        Some(s) => {
            let t = trim(s);
            if t.as_str().is_empty() {
                None
            } else {
                Some(truncate_context(t.as_str(), 1024))
            }
        },
        None => None,
    }
}

/// The bounds of a moment inside its window: both offsets kept inside it, and
/// the end not before the start. `None` where a bound is missing.
pub open spec fn bounds_of(v: JsonView, duration_ms: u64) -> Option<(u64, u64)> {
    match (v.unsigned_at("start_offset_ms"@), v.unsigned_at("end_offset_ms"@)) {
        (Some(s), Some(e)) => {
            let start = lesser(s, duration_ms);
            let end = lesser(e, duration_ms);
            Some((start, if end < start { start } else { end }))
        },
        _ => None,
    }
}

/// The modalities of a moment: those that it lists, or hearing where it lists
/// none that is known and its kind is one that is heard.
pub open spec fn moment_modalities(v: JsonView, kind: Seq<char>) -> Option<Seq<Seq<char>>> {
    match v.items_at("modalities"@) {
        None => None,
        Some(items) => match modalities_of(items) {
            None => None,
            Some(list) => if list.len() > 0 {
                Some(list)
            } else if kind == "speech"@ || kind == "sound_effect"@ || kind == "music"@ || kind
                == "ambient"@ || kind == "mechanical"@ {
                Some(seq!["audio"@])
            } else {
                None
            },
        },
    }
}

/// Nothing and all, as 64-bit values.
pub open spec fn unit_double(d: Double) -> Double {
    d.clamped(double(0), double(0x3ff0_0000_0000_0000))
}

/// A moment that an answer tells of, on the timeline of the source; `None`
/// where a field is missing or of the wrong kind.
pub open spec fn moment_at(v: JsonView, source_start_ms: u64, start: u64, end: u64) -> Option<
    MomentView,
> {
    match (v.text_at("kind"@), v.text_at("description"@), v.double_at("confidence"@)) {
        (Some(k), Some(d), Some(c)) => match moment_modalities(v, moment_kind(k)) {
            Some(modalities) => if trimmed(d).len() > 0 && c.finite() {
                Some(
                    MomentView {
                        start_offset_ms: start,
                        end_offset_ms: end,
                        start_pts_ms: later(source_start_ms, start),
                        end_pts_ms: later(source_start_ms, end),
                        modalities,
                        kind: moment_kind(k),
                        description: clipped(trimmed(d), 1024),
                        intent: optional_text(v, "intent"@),
                        audio_visual_relation: optional_text(v, "audio_visual_relation"@),
                        confidence: unit_double(c).narrowed(),
                    },
                )
            } else {
                None
            },
            None => None,
        },
        _ => None,
    }
}

fn read_moment(v: &Json, source_start_ms: u64, start: u64, end: u64) -> (r: Option<SemanticMoment>)
    ensures
        match r {
            Some(m) => moment_at(v@, source_start_ms, start, end) == Some(m@),
            None => moment_at(v@, source_start_ms, start, end) is None,
        },
{
    let kind = match v.text_at("kind") {
        Some(k) => normalize_moment_kind(k),
        None => {
            return None;
        },
    };
    let mut modalities = match v.items_at("modalities") {
        Some(items) => match read_modalities(items) {
            Some(list) => list,
            None => {
                return None;
            },
        },
        None => {
            return None;
        },
    };
    if modalities.is_empty() {
        let k = kind.as_str();
        if same(k, "speech") || same(k, "sound_effect") || same(k, "music") || same(k, "ambient")
            || same(k, "mechanical") {
            modalities.push(owned("audio"));
            assert(texts(modalities@) =~= seq!["audio"@]);
        } else {
            return None;
        }
    }
    let description = match v.text_at("description") {
        Some(d) => trim(d),
        None => {
            return None;
        },
    };
    if description.as_str().is_empty() {
        return None;
    }
    let confidence = match v.double_at("confidence") {
        Some(c) => c,
        None => {
            return None;
        },
    };
    if !confidence.is_finite() {
        return None;
    }
    let unit = confidence.clamp(Double { bits: 0 }, Double { bits: 0x3ff0_0000_0000_0000 });
    Some(
        SemanticMoment {
            start_offset_ms: start,
            end_offset_ms: end,
            start_pts_ms: source_start_ms.saturating_add(start),
            end_pts_ms: source_start_ms.saturating_add(end),
            modalities,
            kind,
            description: truncate_context(description.as_str(), 1024),
            intent: read_optional_text(v, "intent"),
            audio_visual_relation: read_optional_text(v, "audio_visual_relation"),
            confidence: unit.narrow(),
        },
    )
}

/// The moments that some items tell of, in their order. An item without
/// extent is passed over; `None` where another cannot be read.
pub open spec fn moments_of(items: Seq<JsonView>, source_start_ms: u64, duration_ms: u64) -> Option<
    Seq<MomentView>,
>
    decreases items.len(),
{
    if items.len() == 0 {
        Some(Seq::empty())
    } else {
        let v = items.last();
        match (moments_of(items.drop_last(), source_start_ms, duration_ms), bounds_of(v, duration_ms)) {
            (Some(list), Some((start, end))) => if end <= start {
                Some(list)
            } else {
                match moment_at(v, source_start_ms, start, end) {
                    Some(m) => Some(list.push(m)),
                    None => None,
                }
            },
            _ => None,
        }
    }
}

/// The first 32 items, or all where there are fewer.
pub open spec fn first_32(items: Seq<JsonView>) -> Seq<JsonView> {
    if items.len() <= 32 {
        items
    } else {
        items.take(32)
    }
}

/// The moments of an answer in the order of time.
pub open spec fn moments_in(value: JsonView, source_start_ms: u64, duration_ms: u64) -> Option<
    Seq<MomentView>,
> {
    match value.items_at("moments"@) {
        Some(items) => match moments_of(first_32(items), source_start_ms, duration_ms) {
            Some(list) => Some(sorted::<SemanticMoment, ByTime>(list)),
            None => None,
        },
        None => None,
    }
}

proof fn lemma_moments_fail(items: Seq<JsonView>, source_start_ms: u64, duration_ms: u64, k: int)
    requires
        0 <= k <= items.len(),
        moments_of(items.take(k), source_start_ms, duration_ms) is None,
    ensures
        moments_of(items, source_start_ms, duration_ms) is None,
    decreases items.len() - k,
{
    if k == items.len() {
        assert(items.take(k) =~= items);
    } else {
        assert(items.drop_last().take(k) =~= items.take(k));
        lemma_moments_fail(items.drop_last(), source_start_ms, duration_ms, k);
    }
}

/// The moments of an answer in the order of time: at most 32 items, offsets
/// kept inside the window, and times on the timeline of the source.
pub fn parse_semantic_moments(value: &Json, source_start_ms: u64, duration_ms: u64) -> (r: Result<
    Vec<SemanticMoment>,
    SemanticParseError,
>)
    ensures
        match r {
            Ok(list) => moments_in(value@, source_start_ms, duration_ms) == Some(views(list@)),
            Err(e) => moments_in(value@, source_start_ms, duration_ms) is None && e
                == SemanticParseError::SchemaMismatch,
        },
{
    let items = match value.items_at("moments") {
        Some(items) => items,
        None => {
            return Err(SemanticParseError::SchemaMismatch);
        },
    };
    let n: usize = if items.len() <= 32 {
        items.len()
    } else {
        32
    };
    let ghost all = first_32(json_views(items@));
    assert(all =~= json_views(items@).take(n as int));
    let mut out: Vec<SemanticMoment> = Vec::new();
    let mut i: usize = 0;
    assert(all.take(0) =~= Seq::empty());
    assert(views(out@) =~= Seq::empty());
    while i < n
        invariant
            i <= n <= items@.len(),
            n == all.len(),
            all == json_views(items@).take(n as int),
            all == first_32(json_views(items@)),
            value@.items_at("moments"@) == Some(json_views(items@)),
            moments_of(all.take(i as int), source_start_ms, duration_ms) == Some(views(out@)),
        decreases n - i,
    {
        let v = &items[i];
        assert(all.take(i + 1).drop_last() =~= all.take(i as int));
        assert(all.take(i + 1).last() == v@);
        let start_raw = match v.unsigned_at("start_offset_ms") {
            Some(s) => s,
            None => {
                proof {
                    lemma_moments_fail(all, source_start_ms, duration_ms, i + 1);
                }
                return Err(SemanticParseError::SchemaMismatch);
            },
        };
        let end_raw = match v.unsigned_at("end_offset_ms") {
            Some(e) => e,
            None => {
                proof {
                    lemma_moments_fail(all, source_start_ms, duration_ms, i + 1);
                }
                return Err(SemanticParseError::SchemaMismatch);
            },
        };
        let start: u64 = if start_raw <= duration_ms {
            start_raw
        } else {
            duration_ms
        };
        let capped: u64 = if end_raw <= duration_ms {
            end_raw
        } else {
            duration_ms
        };
        let end: u64 = if capped < start {
            start
        } else {
            capped
        };
        if end > start {
            match read_moment(v, source_start_ms, start, end) {
                Some(moment) => {
                    let ghost before = views(out@);
                    let ghost mv = moment@;
                    out.push(moment);
                    assert(views(out@) =~= before.push(mv));
                },
                None => {
                    proof {
                        lemma_moments_fail(all, source_start_ms, duration_ms, i + 1);
                    }
                    return Err(SemanticParseError::SchemaMismatch);
                },
            }
        }
        i += 1;
    }
    assert(all.take(i as int) =~= all);
    stable_sort::<SemanticMoment, ByTime>(&mut out);
    Ok(out)
}

// ---------------------------------------------------------------- overlay
/// The overlay that shows one moment.
pub open spec fn overlay_of_moment(m: MomentView) -> OverlayView {
    OverlayView {
        event_type: "context_observation"@,
        object_label: m.kind,
        summary: m.description,
        description: m.description,
        confidence: m.confidence,
    }
}

/// The overlay that shows one moment.
pub fn moment_overlay(moment: &SemanticMoment) -> (r: SemanticOverlay)
    ensures
        r@ == overlay_of_moment(moment@),
{
    SemanticOverlay {
        event_type: owned("context_observation"),
        object_label: moment.kind.clone(),
        summary: moment.description.clone(),
        description: moment.description.clone(),
        confidence: moment.confidence,
    }
}

/// The overlay for a window in which nothing happened.
pub open spec fn quiet_overlay() -> OverlayView {
    OverlayView {
        event_type: "context_observation"@,
        object_label: "multimodal_activity"@,
        summary: "No distinct audio-video moment"@,
        description: "The window contained no moment above the event threshold"@,
        confidence: Single { bits: 0 },
    }
}

/// A trimmed text, or another where it is blank.
pub open spec fn trimmed_or(s: Seq<char>, other: Seq<char>) -> Seq<char> {
    if trimmed(s).len() == 0 {
        other
    } else {
        trimmed(s)
    }
}

fn trim_or(s: &str, other: &str) -> (r: String)
    ensures
        r@ == trimmed_or(s@, other@),
{
    let t = trim(s);
    if t.as_str().is_empty() {
        owned(other)
    } else {
        t
    }
}

/// The overlay that an object without moments tells of; `None` where a field is
/// missing, of the wrong kind or out of range.
pub open spec fn plain_overlay(value: JsonView) -> Option<OverlayView> {
    match (
        value.text_at("event_type"@),
        value.text_at("object_label"@),
        value.text_at("summary"@),
        value.text_at("description"@),
        value.double_at("confidence"@),
    ) {
        (Some(event), Some(object), Some(summary), Some(description), Some(c)) => if double(0).le(c)
            && c.le(double(0x3ff0_0000_0000_0000)) {
            Some(
                OverlayView {
                    event_type: event_name(event),
                    object_label: object_name(object),
                    summary: trimmed_or(summary, "semantic summary unavailable"@),
                    description: trimmed_or(description, "semantic description unavailable"@),
                    confidence: c.narrowed(),
                },
            )
        } else {
            None
        },
        _ => None,
    }
}

fn read_plain_overlay(value: &Json) -> (r: Option<SemanticOverlay>)
    ensures
        opt_overlay(r) == plain_overlay(value@),
{
    let event = match value.text_at("event_type") {
        Some(s) => normalize_semantic_event(s),
        None => {
            return None;
        },
    };
    let object = match value.text_at("object_label") {
        Some(s) => normalize_semantic_object(s),
        None => {
            return None;
        },
    };
    let summary = match value.text_at("summary") {
        Some(s) => trim_or(s, "semantic summary unavailable"),
        None => {
            return None;
        },
    };
    let description = match value.text_at("description") {
        Some(s) => trim_or(s, "semantic description unavailable"),
        None => {
            return None;
        },
    };
    match value.double_at("confidence") {
        Some(c) => if c.within(Double { bits: 0 }, Double { bits: 0x3ff0_0000_0000_0000 }) {
            Some(
                SemanticOverlay {
                    event_type: event,
                    object_label: object,
                    summary,
                    description,
                    confidence: c.narrow(),
                },
            )
        } else {
            None
        },
        None => None,
    }
}

/// What an object tells of a chunk: the overlay, and the moments where it is
/// read against the window of a clip.
pub open spec fn overlay_in(value: JsonView, window: Option<(u64, u64)>) -> Option<
    (OverlayView, Seq<MomentView>),
> {
    match window {
        Some((source_start_ms, duration_ms)) => match moments_in(
            value,
            source_start_ms,
            duration_ms,
        ) {
            Some(list) => Some(
                (
                    if list.len() == 0 {
                        quiet_overlay()
                    } else {
                        overlay_of_moment(list[0])
                    },
                    list,
                ),
            ),
            None => None,
        },
        None => match plain_overlay(value) {
            Some(o) => Some((o, Seq::empty())),
            None => None,
        },
    }
}

/// What an object tells of a chunk.
pub fn overlay_from_value(value: &Json, media_window: Option<(u64, u64)>) -> (r: Result<
    (SemanticOverlay, Vec<SemanticMoment>),
    SemanticParseError,
>)
    ensures
        match r {
            Ok((o, list)) => overlay_in(value@, media_window) == Some((o@, views(list@))),
            Err(e) => overlay_in(value@, media_window) is None && e
                == SemanticParseError::SchemaMismatch,
        },
{
    match media_window {
        Some((source_start_ms, duration_ms)) => {
            let moments = match parse_semantic_moments(value, source_start_ms, duration_ms) {
                Ok(list) => list,
                Err(e) => {
                    return Err(e);
                },
            };
            let overlay = if moments.is_empty() {
                SemanticOverlay {
                    event_type: owned("context_observation"),
                    object_label: owned("multimodal_activity"),
                    summary: owned("No distinct audio-video moment"),
                    description: owned("The window contained no moment above the event threshold"),
                    confidence: Single { bits: 0 },
                }
            } else {
                moment_overlay(&moments[0])
            };
            Ok((overlay, moments))
        },
        None => match read_plain_overlay(value) {
            Some(overlay) => {
                let none: Vec<SemanticMoment> = Vec::new();
                assert(views(none@) =~= Seq::empty());
                Ok((overlay, none))
            },
            None => Err(SemanticParseError::SchemaMismatch),
        },
    }
}

/// What an answer tells of a chunk, or why it cannot be read.
pub open spec fn overlay_result(raw: Seq<char>, window: Option<(u64, u64)>) -> Result<
    (OverlayView, Seq<MomentView>),
    SemanticParseError,
> {
    let t = trimmed(raw);
    if t.len() == 0 {
        Err(SemanticParseError::EmptyResponse)
    } else {
        match object_from(t, 0, false) {
            Err(e) => Err(e),
            Ok(value) => match overlay_in(value, window) {
                Some(found) => Ok(found),
                None => Err(SemanticParseError::SchemaMismatch),
            },
        }
    }
}

/// What an answer tells of a chunk: the first JSON object in it, read as an
/// overlay or, against the window of a clip, as moments.
pub fn parse_semantic_overlay(raw: &str, media_window: Option<(u64, u64)>) -> (r: Result<
    (SemanticOverlay, Vec<SemanticMoment>),
    SemanticParseError,
>)
    ensures
        match r {
            Ok((o, list)) => overlay_result(raw@, media_window) == Ok::<
                (OverlayView, Seq<MomentView>),
                SemanticParseError,
            >((o@, views(list@))),
            Err(e) => overlay_result(raw@, media_window) == Err::<
                (OverlayView, Seq<MomentView>),
                SemanticParseError,
            >(e),
        },
{
    let text = trim(raw);
    if text.as_str().is_empty() {
        return Err(SemanticParseError::EmptyResponse);
    }
    match parse_first_json_object(text.as_str()) {
        Ok(value) => overlay_from_value(&value, media_window),
        Err(e) => Err(e),
    }
}

/// A model's moments are taken one by one: one that does not last within the
/// window is passed over, one that tells what it should is added, and one that
/// does not spoils the answer.
pub proof fn each_told_moment_is_taken(
    items: Seq<JsonView>,
    v: JsonView,
    source_start_ms: u64,
    duration_ms: u64,
)
    ensures
        ({
            let before = moments_of(items, source_start_ms, duration_ms);
            let after = moments_of(items.push(v), source_start_ms, duration_ms);
            let s = v.unsigned_at("start_offset_ms"@);
            let e = v.unsigned_at("end_offset_ms"@);
            let lasts = s->0 < duration_ms && s->0 < e->0;
            &&& before is None || s is None || e is None ==> after is None
            &&& before is Some && s is Some && e is Some && !lasts ==> after == before
            &&& before is Some && s is Some && e is Some && lasts && after is Some ==> {
                let m = after->0.last();
                &&& after->0.len() == before->0.len() + 1
                &&& after->0.drop_last() == before->0
                &&& m.start_offset_ms == s->0
                &&& m.end_offset_ms == e->0 || e->0 > duration_ms && m.end_offset_ms == duration_ms
                &&& source_start_ms + duration_ms <= u64::MAX ==> m.start_pts_ms == source_start_ms
                    + m.start_offset_ms && m.end_pts_ms == source_start_ms + m.end_offset_ms
                &&& v.text_at("description"@) is Some
                &&& m.description == clipped(trimmed(v.text_at("description"@)->0), 1024)
                &&& m.modalities.len() > 0
            }
            &&& before is Some && s is Some && e is Some && lasts ==> (after is Some <==> {
                &&& v.text_at("kind"@) is Some
                &&& v.text_at("description"@) is Some && trimmed(
                    v.text_at("description"@)->0,
                ).len() > 0
                &&& v.double_at("confidence"@) is Some && v.double_at("confidence"@)->0.finite()
                &&& moment_modalities(v, moment_kind(v.text_at("kind"@)->0)) is Some
            })
        }),
{
    assert(items.push(v).drop_last() =~= items);
    let before = moments_of(items, source_start_ms, duration_ms);
    let after = moments_of(items.push(v), source_start_ms, duration_ms);
    if let (Some(list), Some((start, end))) = (before, bounds_of(v, duration_ms)) {
        if let Some(m) = moment_at(v, source_start_ms, start, end) {
            assert(list.push(m).drop_last() =~= list);
            if end > start {
                lemma_modalities_named(v, moment_kind(v.text_at("kind"@)->0));
            }
        }
    }
}

proof fn lemma_modalities_named(v: JsonView, kind: Seq<char>)
    ensures
        moment_modalities(v, kind) matches Some(list) ==> list.len() > 0,
{
}

/// The moments of an answer come in the order of their times, and the first one
/// is shown; where there are none, that is said.
pub proof fn the_first_moment_is_shown(value: JsonView, source_start_ms: u64, duration_ms: u64)
    ensures
        overlay_in(value, Some((source_start_ms, duration_ms))) matches Some((overlay, moments)) ==> {
            &&& forall|i: int, j: int|
                #![trigger moments[i], moments[j]]
                0 <= i < j < moments.len() ==> moments[i].start_offset_ms < moments[j].start_offset_ms
                    || moments[i].start_offset_ms == moments[j].start_offset_ms
                    && moments[i].end_offset_ms <= moments[j].end_offset_ms
            &&& moments.len() > 0 ==> overlay.object_label == moments[0].kind && overlay.summary
                == moments[0].description && overlay.description == moments[0].description
                && overlay.confidence == moments[0].confidence
            &&& moments.len() == 0 ==> overlay.object_label == "multimodal_activity"@
                && overlay.confidence == (Single { bits: 0 })
            &&& overlay.event_type == "context_observation"@
            &&& value.items_at("moments"@) is Some
            &&& moments.len() <= 32
        },
{
    if let Some(items) = value.items_at("moments"@) {
        if let Some(list) = moments_of(first_32(items), source_start_ms, duration_ms) {
            let r = sorted::<SemanticMoment, ByTime>(list);
            crate::sort::sorting_orders_and_permutes::<SemanticMoment, ByTime>(list);
            lemma_moments_are_no_more(first_32(items), source_start_ms, duration_ms);
            assert forall|i: int, j: int|
                #![trigger r[i], r[j]]
                0 <= i < j < r.len() implies r[i].start_offset_ms < r[j].start_offset_ms
                || r[i].start_offset_ms == r[j].start_offset_ms && r[i].end_offset_ms
                <= r[j].end_offset_ms by {
                assert(<SemanticMoment as Ranked<ByTime>>::ranks_before(r[i], r[j]));
            }
        }
    }
}

proof fn lemma_moments_are_no_more(items: Seq<JsonView>, source_start_ms: u64, duration_ms: u64)
    ensures
        moments_of(items, source_start_ms, duration_ms) matches Some(list) ==> list.len()
            <= items.len(),
    decreases items.len(),
{
    if items.len() > 0 {
        lemma_moments_are_no_more(items.drop_last(), source_start_ms, duration_ms);
    }
}

/// A plain answer is taken exactly if it has its five fields and a confidence
/// from zero to one; its event is one of the known ones.
pub proof fn plain_answers_are_read(value: JsonView)
    ensures
        ({
            let read = plain_overlay(value);
            let c = value.double_at("confidence"@);
            &&& read is Some <==> {
                &&& value.text_at("event_type"@) is Some
                &&& value.text_at("object_label"@) is Some
                &&& value.text_at("summary"@) is Some
                &&& value.text_at("description"@) is Some
                &&& c is Some && double(0).le(c->0) && c->0.le(double(0x3ff0_0000_0000_0000))
            }
            &&& read matches Some(o) ==> {
                let named = lowered(trimmed(value.text_at("event_type"@)->0));
                let summary = trimmed(value.text_at("summary"@)->0);
                let description = trimmed(value.text_at("description"@)->0);
                &&& o.confidence == c->0.narrowed()
                &&& o.event_type == if named == "scene_cut"@ || named == "artifact_suspected"@
                    || named == "keyframe_keep"@ {
                    named
                } else {
                    "context_observation"@
                }
                &&& o.object_label.len() > 0
                &&& summary.len() > 0 ==> o.summary == summary
                &&& summary.len() == 0 ==> o.summary == "semantic summary unavailable"@
                &&& description.len() > 0 ==> o.description == description
                &&& description.len() == 0 ==> o.description == "semantic description unavailable"@
            }
        }),
{
    reveal_strlit("frame_context");
    assert("frame_context"@.len() == 13);
}

/// An answer is read from the first object in it that can be read; the error
/// says whether there was nothing, no object, or none that could be read.
pub proof fn the_first_readable_object_is_read(t: Seq<char>, at: int, saw_balanced: bool)
    requires
        0 <= at <= t.len(),
    ensures
        ({
            let read = object_from(t, at, saw_balanced);
            &&& read matches Ok(v) ==> exists|i: int, k: int|
                #![trigger t.subrange(i, i + k)]
                at <= i < t.len() && t[i] == '{' && object_length(t.skip(i)) == Some(k)
                    && read_json(t.subrange(i, i + k)) == Some(v)
            &&& read == Err::<JsonView, _>(SemanticParseError::JsonObjectNotFound)
                ==> !saw_balanced && forall|i: int|
                    at <= i < t.len() && #[trigger] t[i] == '{' ==> object_length(t.skip(i)) is None
            &&& read matches Err(e) ==> e == SemanticParseError::InvalidJson || e
                == SemanticParseError::JsonObjectNotFound
            &&& read is Err ==> forall|i: int|
                at <= i < t.len() && #[trigger] t[i] == '{' && object_length(t.skip(i)) is Some
                    ==> read_json(t.subrange(i, i + object_length(t.skip(i))->0)) is None
        }),
    decreases t.len() - at,
{
    if at < t.len() {
        if t[at] != '{' {
            the_first_readable_object_is_read(t, at + 1, saw_balanced);
        } else {
            match object_length(t.skip(at)) {
                None => the_first_readable_object_is_read(t, at + 1, saw_balanced),
                Some(k) => match read_json(t.subrange(at, at + k)) {
                    Some(v) => {},
                    None => the_first_readable_object_is_read(t, at + 1, true),
                },
            }
        }
    }
}

/// An object ends at the first brace outside its texts that closes as many as
/// were opened.
pub proof fn objects_end_where_their_braces_close(s: Seq<char>, k: int)
    requires
        0 < k <= s.len(),
    ensures
        object_length_from(s, k) matches Some(e) ==> {
            &&& k <= e <= s.len()
            &&& s[e - 1] == '}'
            &&& scan_of(s.take(e)).depth == 0
            &&& !scan_of(s.take(e - 1)).in_string
        },
        forall|j: int|
            #![trigger s.take(j)]
            k <= j <= s.len() && (object_length_from(s, k) matches Some(e) ==> j < e) ==> !(s[j - 1]
                == '}' && scan_of(s.take(j)).depth == 0 && !scan_of(s.take(j - 1)).in_string),
    decreases s.len() + 1 - k,
{
    reveal_with_fuel(object_length_from, 2);
    if !closes_at(s, k) && k < s.len() {
        objects_end_where_their_braces_close(s, k + 1);
    }
}

/// Braces count outside of texts only; a text ends at the next quote that no
/// backslash takes away.
pub proof fn braces_count_outside_of_texts(s: Seq<char>, c: char)
    ensures
        ({
            let before = scan_of(s);
            let after = scan_of(s.push(c));
            &&& before.in_string ==> after.depth == before.depth
            &&& !before.in_string && c == '{' ==> after.depth == before.depth + 1
            &&& !before.in_string && c == '}' ==> after.depth == before.depth - 1
            &&& c != '{' && c != '}' ==> after.depth == before.depth
            &&& !before.in_string ==> (after.in_string <==> c == '"')
            &&& before.in_string ==> (after.in_string <==> before.escaped || c != '"')
            &&& before.in_string ==> (after.escaped <==> !before.escaped && c == '\\')
            &&& scan_of(Seq::empty()).depth == 0 && !scan_of(Seq::empty()).in_string
        }),
{
    assert(s.push(c).drop_last() =~= s);
}

/// Each sense that is named is kept once, whatever it was called.
pub proof fn each_sense_is_named_once(items: Seq<JsonView>, v: JsonView)
    ensures
        ({
            let before = modalities_of(items);
            let after = modalities_of(items.push(v));
            &&& before is None || v.as_text() is None ==> after is None
            &&& before is Some && v.as_text() is Some ==> after is Some && {
                let named = modality_of(v.as_text()->0);
                &&& named is None ==> after == before
                &&& named is Some && before->0.contains(named->0) ==> after == before
                &&& named is Some && !before->0.contains(named->0) ==> after->0 == before->0.push(
                    named->0,
                )
            }
            &&& v.as_text() is Some && lowered(trimmed(v.as_text()->0)) == "video"@ ==> modality_of(
                v.as_text()->0,
            ) == Some("video"@)
        }),
{
    assert(items.push(v).drop_last() =~= items);
}

/// A moment's kind is read from the word that the model used for it.
pub proof fn words_tell_the_kind(raw: Seq<char>)
    ensures
        ({
            let word = underscored(lowered(trimmed(raw)), true);
            let says = |part: Seq<char>| occurs(word, part);
            let speech = word == "speech"@ || says("dialog"@) || says("voice"@) || says("spoken"@);
            let effect = word == "sound_effect"@ || says("effect"@) || says("beep"@) || says(
                "tone"@,
            ) || says("impact"@);
            let music = says("music"@);
            let ambient = says("ambient"@) || says("background"@);
            let interaction = says("interaction"@);
            let mechanical = says("mechanical"@) || says("machine"@);
            &&& speech ==> moment_kind(raw) == "speech"@
            &&& !speech && effect ==> moment_kind(raw) == "sound_effect"@
            &&& !speech && !effect && music ==> moment_kind(raw) == "music"@
            &&& !speech && !effect && !music && ambient ==> moment_kind(raw) == "ambient"@
            &&& !speech && !effect && !music && !ambient && interaction ==> moment_kind(raw)
                == "interaction"@
            &&& !speech && !effect && !music && !ambient && !interaction && mechanical
                ==> moment_kind(raw) == "mechanical"@
            &&& !speech && !effect && !music && !ambient && !interaction && !mechanical
                ==> moment_kind(raw) == "other"@
        }),
{
}

/// A sense is read from the word that the model used for it.
pub proof fn words_tell_the_sense(raw: Seq<char>)
    ensures
        ({
            let word = lowered(trimmed(raw));
            let seen = word == "video"@ || word == "visual"@ || occurs(word, "picture"@);
            let heard = word == "audio"@ || occurs(word, "speech"@) || occurs(word, "sound"@)
                || occurs(word, "voice"@) || occurs(word, "music"@);
            &&& modality_of(raw) == Some("video"@) <==> seen
            &&& modality_of(raw) == Some("audio"@) <==> heard && !seen
            &&& modality_of(raw) is None <==> !seen && !heard
        }),
{
    reveal_strlit("video");
    reveal_strlit("audio");
    assert("video"@.len() == 5);
    assert("audio"@.len() == 5);
    assert("video"@[0] == 'v' && "audio"@[0] == 'a');
}

} // verus!
