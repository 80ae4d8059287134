//! The events of runs, as the log keeps them.

use vstd::prelude::*;

use crate::json::{json_views, parse_or_null, payload_or_null, read_json, Json, JsonView};
use crate::text::same;

verus! {

/// One event of a run.
#[derive(Debug)]
pub struct TimelineEvent {
    pub seq: u64,
    pub run_id: String,
    pub stream_id: String,
    pub pts_ms: u64,
    pub kind: String,
    /// A JSON text.
    pub payload: String,
}

/// What an event is.
pub ghost struct EventView {
    pub seq: u64,
    pub run_id: Seq<char>,
    pub stream_id: Seq<char>,
    pub pts_ms: u64,
    pub kind: Seq<char>,
    pub payload: Seq<char>,
}

impl View for TimelineEvent {
    type V = EventView;

    open spec fn view(&self) -> EventView {
        EventView {
            seq: self.seq,
            run_id: self.run_id@,
            stream_id: self.stream_id@,
            pts_ms: self.pts_ms,
            kind: self.kind@,
            payload: self.payload@,
        }
    }
}

impl TimelineEvent {
    /// Whether an event is of some kind.
    pub fn is(&self, kind: &str) -> (r: bool)
        ensures
            r == (self@.kind == kind@),
    {
        same(self.kind.as_str(), kind)
    }

    /// The same event once more.
    pub fn copy(&self) -> (r: TimelineEvent)
        ensures
            r@ == self@,
    {
        TimelineEvent {
            seq: self.seq,
            run_id: self.run_id.clone(),
            stream_id: self.stream_id.clone(),
            pts_ms: self.pts_ms,
            kind: self.kind.clone(),
            payload: self.payload.clone(),
        }
    }
}

/// The first event of some kind.
pub open spec fn first_of_kind(events: Seq<EventView>, kind: Seq<char>) -> Option<EventView>
    decreases events.len(),
{
    if events.len() == 0 {
        None
    } else if events[0].kind == kind {
        Some(events[0])
    } else {
        first_of_kind(events.drop_first(), kind)
    }
}

/// The last event of some kind.
pub open spec fn last_of_kind(events: Seq<EventView>, kind: Seq<char>) -> Option<EventView>
    decreases events.len(),
{
    if events.len() == 0 {
        None
    } else if events.last().kind == kind {
        Some(events.last())
    } else {
        last_of_kind(events.drop_last(), kind)
    }
}

/// There is an event of some kind.
pub open spec fn has_kind(events: Seq<EventView>, kind: Seq<char>) -> bool {
    exists|i: int| 0 <= i < events.len() && (#[trigger] events[i]).kind == kind
}

/// The views of some events.
pub open spec fn event_views(events: Seq<TimelineEvent>) -> Seq<EventView> {
    events.map_values(|e: TimelineEvent| e@)
}

/// A batch that was read from the log: its events are behind one, and in the
/// order of the log.
pub open spec fn read_behind(cursor: u64, batch: Seq<EventView>) -> bool {
    &&& forall|i: int| 0 <= i < batch.len() ==> (#[trigger] batch[i]).seq > cursor
    &&& forall|i: int, j: int|
        #![trigger batch[i], batch[j]]
        0 <= i < j < batch.len() ==> batch[i].seq < batch[j].seq
}

/// Where the first event of some kind stands.
pub fn find_first(events: &Vec<TimelineEvent>, kind: &str) -> (r: Option<usize>)
    ensures
        match r {
            Some(i) => i < events@.len() && first_of_kind(event_views(events@), kind@) == Some(
                events@[i as int]@,
            ) && events@[i as int].kind@ == kind@,
            None => first_of_kind(event_views(events@), kind@) is None && !has_kind(
                event_views(events@),
                kind@,
            ),
        },
{
    let ghost all = event_views(events@);
    let mut i: usize = 0;
    assert(all.skip(0) =~= all);
    while i < events.len()
        invariant
            i <= events@.len(),
            all == event_views(events@),
            first_of_kind(all, kind@) == first_of_kind(all.skip(i as int), kind@),
            forall|k: int| 0 <= k < i ==> (#[trigger] all[k]).kind != kind@,
        decreases events@.len() - i,
    {
        assert(all.skip(i as int)[0] == events@[i as int]@);
        if events[i].is(kind) {
            return Some(i);
        }
        assert(all.skip(i as int).drop_first() =~= all.skip(i + 1));
        i += 1;
    }
    None
}

/// Whether there is an event of some kind.
pub fn any_of_kind(events: &Vec<TimelineEvent>, kind: &str) -> (r: bool)
    ensures
        r == has_kind(event_views(events@), kind@),
{
    match find_first(events, kind) {
        Some(i) => {
            assert(event_views(events@)[i as int].kind == kind@);
            true
        },
        None => false,
    }
}

/// Where the last event of some kind stands.
pub fn find_last(events: &Vec<TimelineEvent>, kind: &str) -> (r: Option<usize>)
    ensures
        match r {
            Some(i) => i < events@.len() && last_of_kind(event_views(events@), kind@) == Some(
                events@[i as int]@,
            ),
            None => last_of_kind(event_views(events@), kind@) is None,
        },
{
    let ghost all = event_views(events@);
    let mut i: usize = events.len();
    assert(all.take(i as int) =~= all);
    while i > 0
        invariant
            i <= events@.len(),
            all == event_views(events@),
            last_of_kind(all, kind@) == last_of_kind(all.take(i as int), kind@),
        decreases i,
    {
        assert(all.take(i as int).last() == events@[i - 1]@);
        if events[i - 1].is(kind) {
            return Some(i - 1);
        }
        assert(all.take(i as int).drop_last() =~= all.take(i - 1));
        i -= 1;
    }
    None
}

/// What the payloads of some events are.
pub open spec fn payloads_of(events: Seq<EventView>) -> Seq<JsonView> {
    events.map_values(|e: EventView| payload_or_null(read_json(e.payload)))
}

/// What the payloads of some events are.
pub fn read_payloads(events: &Vec<TimelineEvent>) -> (r: Vec<Json>)
    ensures
        json_views(r@) == payloads_of(event_views(events@)),
        r@.len() == events@.len(),
{
    let ghost all = event_views(events@);
    let mut payloads: Vec<Json> = Vec::new();
    let mut i: usize = 0;
    while i < events.len()
        invariant
            all == event_views(events@),
            i <= events@.len(),
            json_views(payloads@) == payloads_of(all).take(i as int),
        decreases events@.len() - i,
    {
        let ghost before = json_views(payloads@);
        let payload = parse_or_null(events[i].payload.as_str());
        let ghost pv = payload@;
        payloads.push(payload);
        assert(json_views(payloads@) =~= before.push(pv));
        assert(all[i as int] == events@[i as int]@);
        assert(payloads_of(all).take(i + 1) =~= before.push(pv));
        i += 1;
    }
    assert(payloads_of(all).take(i as int) =~= payloads_of(all));
    assert(json_views(payloads@).len() == events@.len());
    payloads
}

/// The first event of a kind is one of that kind with none before it, and the
/// last one with none behind it; there is none exactly if there is no event of
/// the kind.
pub proof fn the_first_and_last_of_a_kind(events: Seq<EventView>, kind: Seq<char>)
    ensures
        first_of_kind(events, kind) is None <==> forall|k: int|
            0 <= k < events.len() ==> (#[trigger] events[k]).kind != kind,
        last_of_kind(events, kind) is None <==> forall|k: int|
            0 <= k < events.len() ==> (#[trigger] events[k]).kind != kind,
        first_of_kind(events, kind) matches Some(e) ==> exists|i: int|
            0 <= i < events.len() && #[trigger] events[i] == e && e.kind == kind && forall|k: int|
                0 <= k < i ==> (#[trigger] events[k]).kind != kind,
        last_of_kind(events, kind) matches Some(e) ==> exists|i: int|
            0 <= i < events.len() && #[trigger] events[i] == e && e.kind == kind && forall|k: int|
                i < k < events.len() ==> (#[trigger] events[k]).kind != kind,
{
    lemma_first_of_kind(events, kind);
    lemma_last_of_kind(events, kind);
}

proof fn lemma_first_of_kind(events: Seq<EventView>, kind: Seq<char>)
    ensures
        first_of_kind(events, kind) is None <==> forall|k: int|
            0 <= k < events.len() ==> (#[trigger] events[k]).kind != kind,
        first_of_kind(events, kind) matches Some(e) ==> exists|i: int|
            0 <= i < events.len() && #[trigger] events[i] == e && e.kind == kind && forall|k: int|
                0 <= k < i ==> (#[trigger] events[k]).kind != kind,
    decreases events.len(),
{
    if events.len() > 0 && events[0].kind != kind {
        let rest = events.drop_first();
        lemma_first_of_kind(rest, kind);
        if let Some(e) = first_of_kind(events, kind) {
            let i = choose|i: int|
                0 <= i < rest.len() && #[trigger] rest[i] == e && e.kind == kind && forall|k: int|
                    0 <= k < i ==> (#[trigger] rest[k]).kind != kind;
            assert(events[i + 1] == e);
            assert forall|k: int| 0 <= k < i + 1 implies (#[trigger] events[k]).kind != kind by {
                if k > 0 {
                    assert(rest[k - 1] == events[k]);
                }
            }
        } else {
            assert forall|k: int| 0 <= k < events.len() implies (#[trigger] events[k]).kind
                != kind by {
                if k > 0 {
                    assert(rest[k - 1] == events[k]);
                }
            }
        }
    } else if events.len() > 0 {
        assert(events[0].kind == kind);
    }
}

proof fn lemma_last_of_kind(events: Seq<EventView>, kind: Seq<char>)
    ensures
        last_of_kind(events, kind) is None <==> forall|k: int|
            0 <= k < events.len() ==> (#[trigger] events[k]).kind != kind,
        last_of_kind(events, kind) matches Some(e) ==> exists|i: int|
            0 <= i < events.len() && #[trigger] events[i] == e && e.kind == kind && forall|k: int|
                i < k < events.len() ==> (#[trigger] events[k]).kind != kind,
    decreases events.len(),
{
    if events.len() > 0 && events.last().kind != kind {
        let rest = events.drop_last();
        lemma_last_of_kind(rest, kind);
        if let Some(e) = last_of_kind(events, kind) {
            let i = choose|i: int|
                0 <= i < rest.len() && #[trigger] rest[i] == e && e.kind == kind && forall|k: int|
                    i < k < rest.len() ==> (#[trigger] rest[k]).kind != kind;
            assert(events[i] == e);
            assert forall|k: int| i < k < events.len() implies (#[trigger] events[k]).kind
                != kind by {
                if k < rest.len() {
                    assert(rest[k] == events[k]);
                }
            }
        } else {
            assert forall|k: int| 0 <= k < events.len() implies (#[trigger] events[k]).kind
                != kind by {
                if k < rest.len() {
                    assert(rest[k] == events[k]);
                }
            }
        }
    } else if events.len() > 0 {
        assert(events[events.len() - 1].kind == kind);
    }
}

} // verus!
