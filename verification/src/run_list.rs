//! The list of a caller's runs.

use vstd::prelude::*;

use crate::calendar::{iso_of, ms_to_iso};
use crate::json::{json_views, Json, JsonView};
use crate::response::{ok, ok_view, Reply};
use crate::runs::{
    creator, extract_run_metadata, metadata_of, run_json, run_view, RunSnapshot, SnapshotView,
};
use crate::places::{next_place_counts, no_place_below_zero, places};
use crate::sort::{sorted, sorting_orders_and_permutes, stable_sort, views, Ranked};
use crate::text::{
    has_text, le, owned, same, text_le, text_order_is_total, text_order_is_transitive, texts,
};
use crate::timeline::{
    any_of_kind, event_views, find_first, first_of_kind, has_kind, EventView, TimelineEvent,
};

verus! {

/// The ids of the runs that some events belong to, each once, in the order in
/// which they first occur.
pub open spec fn run_order(events: Seq<EventView>) -> Seq<Seq<char>>
    decreases events.len(),
{
    if events.len() == 0 {
        Seq::empty()
    } else {
        let before = run_order(events.drop_last());
        if before.contains(events.last().run_id) {
            before
        } else {
            before.push(events.last().run_id)
        }
    }
}

/// The events of one run.
pub open spec fn events_of(events: Seq<EventView>, run_id: Seq<char>) -> Seq<EventView>
    decreases events.len(),
{
    if events.len() == 0 {
        Seq::empty()
    } else {
        let before = events_of(events.drop_last(), run_id);
        if events.last().run_id == run_id {
            before.push(events.last())
        } else {
            before
        }
    }
}

/// The ids of the runs that some events belong to.
pub fn distinct_run_ids(events: &Vec<TimelineEvent>) -> (r: Vec<String>)
    ensures
        texts(r@) == run_order(event_views(events@)),
{
    let ghost all = event_views(events@);
    let mut out: Vec<String> = Vec::new();
    let mut i: usize = 0;
    assert(texts(out@) =~= Seq::empty());
    while i < events.len()
        invariant
            all == event_views(events@),
            i <= events@.len(),
            texts(out@) == run_order(all.take(i as int)),
        decreases events@.len() - i,
    {
        assert(all.take(i + 1).drop_last() =~= all.take(i as int));
        assert(all.take(i + 1).last() == events@[i as int]@);
        if !has_text(&out, events[i].run_id.as_str()) {
            let ghost before = texts(out@);
            out.push(owned(events[i].run_id.as_str()));
            assert(texts(out@) =~= before.push(events@[i as int].run_id@));
        }
        i += 1;
    }
    assert(all.take(i as int) =~= all);
    out
}

fn select_run(events: &Vec<TimelineEvent>, run_id: &str) -> (r: Vec<TimelineEvent>)
    ensures
        event_views(r@) == events_of(event_views(events@), run_id@),
{
    let ghost all = event_views(events@);
    let mut out: Vec<TimelineEvent> = Vec::new();
    let mut i: usize = 0;
    assert(event_views(out@) =~= Seq::empty());
    while i < events.len()
        invariant
            all == event_views(events@),
            i <= events@.len(),
            event_views(out@) == events_of(all.take(i as int), run_id@),
        decreases events@.len() - i,
    {
        assert(all.take(i + 1).drop_last() =~= all.take(i as int));
        assert(all.take(i + 1).last() == events@[i as int]@);
        if same(events[i].run_id.as_str(), run_id) {
            let ghost before = event_views(out@);
            out.push(events[i].copy());
            assert(event_views(out@) =~= before.push(events@[i as int]@));
        }
        i += 1;
    }
    assert(all.take(i as int) =~= all);
    out
}

/// What is known of a run at this moment, where anything is.
#[derive(Debug)]
pub struct KnownRun {
    pub run_id: String,
    pub snapshot: RunSnapshot,
}

impl View for KnownRun {
    type V = (Seq<char>, SnapshotView);

    open spec fn view(&self) -> (Seq<char>, SnapshotView) {
        (self.run_id@, self.snapshot@)
    }
}

/// What is known of a run, by its id.
pub open spec fn known(runs: Seq<(Seq<char>, SnapshotView)>, run_id: Seq<char>) -> Option<
    SnapshotView,
>
    decreases runs.len(),
{
    if runs.len() == 0 {
        None
    } else if runs[0].0 == run_id {
        Some(runs[0].1)
    } else {
        known(runs.drop_first(), run_id)
    }
}

fn find_known<'a>(runs: &'a Vec<KnownRun>, run_id: &str) -> (r: Option<&'a KnownRun>)
    ensures
        match r {
            Some(k) => known(views(runs@), run_id@) == Some(k.snapshot@),
            None => known(views(runs@), run_id@) is None,
        },
{
    let ghost all = views(runs@);
    let mut i: usize = 0;
    assert(all.skip(0) =~= all);
    while i < runs.len()
        invariant
            all == views(runs@),
            i <= runs@.len(),
            known(all, run_id@) == known(all.skip(i as int), run_id@),
        decreases runs@.len() - i,
    {
        assert(all.skip(i as int)[0] == runs@[i as int]@);
        if same(runs[i].run_id.as_str(), run_id) {
            return Some(&runs[i]);
        }
        assert(all.skip(i as int).drop_first() =~= all.skip(i + 1));
        i += 1;
    }
    None
}

/// A row of the list, with the text that decides its place.
#[derive(Debug)]
pub struct RunRow {
    pub created_at: String,
    pub json: Json,
}

impl View for RunRow {
    type V = (Seq<char>, JsonView);

    open spec fn view(&self) -> (Seq<char>, JsonView) {
        (self.created_at@, self.json@)
    }
}

/// The order of the list: by the time of creation.
pub struct ByCreation;

impl Ranked<ByCreation> for RunRow {
    open spec fn ranks_before(a: (Seq<char>, JsonView), b: (Seq<char>, JsonView)) -> bool {
        text_le(a.0, b.0)
    }

    fn may_precede(&self, other: &Self) -> (r: bool) {
        le(self.created_at.as_str(), other.created_at.as_str())
    }

    proof fn rank_is_total(a: (Seq<char>, JsonView), b: (Seq<char>, JsonView)) {
        text_order_is_total(a.0, b.0);
    }

    proof fn rank_is_transitive(
        a: (Seq<char>, JsonView),
        b: (Seq<char>, JsonView),
        c: (Seq<char>, JsonView),
    ) {
        text_order_is_transitive(a.0, b.0, c.0);
    }
}

/// The row of a run, where the caller has one: it was created for them, it is
/// not deleted, and it is known.
pub open spec fn row_of(
    events: Seq<EventView>,
    run_id: Seq<char>,
    runs: Seq<(Seq<char>, SnapshotView)>,
    principal: Seq<char>,
) -> Option<(Seq<char>, JsonView)> {
    let mine = events_of(events, run_id);
    if has_kind(mine, "run_deleted"@) {
        None
    } else {
        match (first_of_kind(mine, "run_created"@), known(runs, run_id)) {
            (Some(created), Some(s)) => if creator(created) == principal {
                let m = metadata_of(mine);
                Some((iso_of(m.created_at_ms as int), run_view(run_id, s.state_label, m)))
            } else {
                None
            },
            _ => None,
        }
    }
}

/// The rows of some runs, in their order.
pub open spec fn rows_of(
    events: Seq<EventView>,
    ids: Seq<Seq<char>>,
    runs: Seq<(Seq<char>, SnapshotView)>,
    principal: Seq<char>,
) -> Seq<(Seq<char>, JsonView)>
    decreases ids.len(),
{
    if ids.len() == 0 {
        Seq::empty()
    } else {
        let before = rows_of(events, ids.drop_last(), runs, principal);
        match row_of(events, ids.last(), runs, principal) {
            Some(row) => before.push(row),
            None => before,
        }
    }
}

/// The bodies of some rows.
pub open spec fn row_bodies(rows: Seq<(Seq<char>, JsonView)>) -> Seq<JsonView> {
    rows.map_values(|row: (Seq<char>, JsonView)| row.1)
}

/// The list of a caller's runs, the oldest first.
pub open spec fn run_list(
    events: Seq<EventView>,
    runs: Seq<(Seq<char>, SnapshotView)>,
    principal: Seq<char>,
) -> Seq<JsonView> {
    row_bodies(
        sorted::<RunRow, ByCreation>(rows_of(events, run_order(events), runs, principal)),
    )
}

fn one_row(
    events: &Vec<TimelineEvent>,
    run_id: &str,
    runs: &Vec<KnownRun>,
    principal: &str,
) -> (r: Option<RunRow>)
    ensures
        match r {
            Some(row) => row_of(event_views(events@), run_id@, views(runs@), principal@) == Some(
                row@,
            ),
            None => row_of(event_views(events@), run_id@, views(runs@), principal@) is None,
        },
{
    let mine = select_run(events, run_id);
    if any_of_kind(&mine, "run_deleted") {
        return None;
    }
    match find_first(&mine, "run_created") {
        None => None,
        Some(at) => if crate::runs::created_by(&mine[at], principal) {
            match find_known(runs, run_id) {
                None => None,
                Some(k) => {
                    let m = extract_run_metadata(&mine);
                    Some(
                        RunRow {
                            created_at: ms_to_iso(m.created_at_ms),
                            json: run_json(run_id, k.snapshot.state_label.as_str(), &m),
                        },
                    )
                },
            }
        } else {
            None
        },
    }
}

/// Lists a caller's runs, the oldest first. `runs` tells what is known of the
/// runs that the events belong to.
pub fn list_runs(
    events: &Vec<TimelineEvent>,
    runs: &Vec<KnownRun>,
    principal: &str,
) -> (r: Reply)
    ensures
        r@ == ok_view(
            JsonView::Array(run_list(event_views(events@), views(runs@), principal@)),
        ),
{
    let ghost all = event_views(events@);
    let ids = distinct_run_ids(events);
    let ghost order = texts(ids@);
    let mut rows: Vec<RunRow> = Vec::new();
    let mut i: usize = 0;
    assert(views(rows@) =~= Seq::empty());
    while i < ids.len()
        invariant
            all == event_views(events@),
            order == texts(ids@),
            i <= ids@.len(),
            views(rows@) == rows_of(all, order.take(i as int), views(runs@), principal@),
        decreases ids@.len() - i,
    {
        assert(order.take(i + 1).drop_last() =~= order.take(i as int));
        assert(order.take(i + 1).last() == ids@[i as int]@);
        match one_row(events, ids[i].as_str(), runs, principal) {
            Some(row) => {
                let ghost before = views(rows@);
                let ghost rv = row@;
                rows.push(row);
                assert(views(rows@) =~= before.push(rv));
            },
            None => {},
        }
        i += 1;
    }
    assert(order.take(i as int) =~= order);
    stable_sort::<RunRow, ByCreation>(&mut rows);
    let ghost done = views(rows@);
    let mut bodies: Vec<Json> = Vec::new();
    let mut k: usize = 0;
    while k < rows.len()
        invariant
            done == views(rows@),
            k <= rows@.len(),
            json_views(bodies@) == row_bodies(done).take(k as int),
        decreases rows@.len() - k,
    {
        let ghost before = json_views(bodies@);
        bodies.push(rows[k].json.copy());
        assert(json_views(bodies@) =~= before.push(rows@[k as int].json@));
        assert(row_bodies(done).take(k + 1) =~= before.push(rows@[k as int].json@));
        k += 1;
    }
    assert(row_bodies(done).take(k as int) =~= row_bodies(done));
    ok(Json::list(bodies))
}

/// Each id occurs once in the order of runs.
pub proof fn run_order_has_no_duplicates(events: Seq<EventView>)
    ensures
        run_order(events).no_duplicates(),
    decreases events.len(),
{
    if events.len() > 0 {
        run_order_has_no_duplicates(events.drop_last());
    }
}

/// Every run that is listed was created for the caller and is not deleted.
pub proof fn listed_runs_are_the_callers(
    events: Seq<EventView>,
    run_id: Seq<char>,
    runs: Seq<(Seq<char>, SnapshotView)>,
    principal: Seq<char>,
)
    requires
        row_of(events, run_id, runs, principal) is Some,
    ensures
        crate::runs::owned_in(events, run_id, principal),
{
    let mine = events_of(events, run_id);
    lemma_events_of(events, run_id);
    lemma_first_of_kind(mine, "run_created"@);
    let at = choose|at: int|
        0 <= at < mine.len() && #[trigger] mine[at] == first_of_kind(mine, "run_created"@)->0;
    let k = choose|k: int| 0 <= k < events.len() && #[trigger] events[k] == mine[at];
    assert(events[k].run_id == run_id);
    if crate::runs::deleted_in(events, run_id) {
        let d = choose|d: int|
            #![trigger events[d]]
            0 <= d < events.len() && events[d].run_id == run_id && events[d].kind
                == "run_deleted"@;
        assert(mine.contains(events[d]));
        let m = choose|m: int| 0 <= m < mine.len() && mine[m] == events[d];
        assert(mine[m].kind == "run_deleted"@);
    }
}

proof fn lemma_events_of(events: Seq<EventView>, run_id: Seq<char>)
    ensures
        forall|i: int|
            0 <= i < events_of(events, run_id).len() ==> (#[trigger] events_of(
                events,
                run_id,
            )[i]).run_id == run_id && exists|k: int|
                0 <= k < events.len() && #[trigger] events[k] == events_of(events, run_id)[i],
        forall|k: int|
            0 <= k < events.len() && (#[trigger] events[k]).run_id == run_id ==> events_of(
                events,
                run_id,
            ).contains(events[k]),
    decreases events.len(),
{
    if events.len() > 0 {
        let shorter = events.drop_last();
        let before = events_of(shorter, run_id);
        let all = events_of(events, run_id);
        lemma_events_of(shorter, run_id);
        assert forall|i: int| 0 <= i < all.len() implies (#[trigger] all[i]).run_id == run_id
            && exists|k: int| 0 <= k < events.len() && #[trigger] events[k] == all[i] by {
            if i < before.len() {
                assert(all[i] == before[i]);
                let k = choose|k: int| 0 <= k < shorter.len() && #[trigger] shorter[k] == before[i];
                assert(events[k] == all[i]);
            } else {
                assert(events[events.len() - 1] == all[i]);
            }
        }
        assert forall|k: int|
            0 <= k < events.len() && (#[trigger] events[k]).run_id == run_id implies all.contains(
            events[k],
        ) by {
            if k < shorter.len() {
                assert(shorter[k] == events[k]);
                assert(before.contains(shorter[k]));
                let i = choose|i: int| 0 <= i < before.len() && before[i] == shorter[k];
                assert(all[i] == events[k]);
            } else {
                assert(all[all.len() - 1] == events[k]);
            }
        }
    }
}

proof fn lemma_first_of_kind(events: Seq<EventView>, kind: Seq<char>)
    requires
        first_of_kind(events, kind) is Some,
    ensures
        first_of_kind(events, kind)->0.kind == kind,
        exists|i: int|
            0 <= i < events.len() && #[trigger] events[i] == first_of_kind(events, kind)->0,
    decreases events.len(),
{
    if events[0].kind == kind {
        assert(events[0] == first_of_kind(events, kind)->0);
    } else {
        let rest = events.drop_first();
        lemma_first_of_kind(rest, kind);
        let i = choose|i: int| 0 <= i < rest.len() && #[trigger] rest[i] == first_of_kind(rest, kind)->0;
        assert(events[i + 1] == rest[i]);
    }
}

/// Every run that an event belongs to is among the runs of the log, and no other
/// is.
pub proof fn the_log_tells_its_runs(events: Seq<EventView>, run_id: Seq<char>)
    ensures
        run_order(events).contains(run_id) <==> exists|i: int|
            0 <= i < events.len() && (#[trigger] events[i]).run_id == run_id,
    decreases events.len(),
{
    if events.len() > 0 {
        let shorter = events.drop_last();
        let before = run_order(shorter);
        the_log_tells_its_runs(shorter, run_id);
        if before.contains(run_id) {
            let i = choose|i: int| 0 <= i < shorter.len() && (#[trigger] shorter[i]).run_id == run_id;
            assert(events[i] == shorter[i]);
            let k = choose|k: int| 0 <= k < before.len() && before[k] == run_id;
            assert(run_order(events)[k] == run_id);
        }
        if events.last().run_id == run_id {
            assert(events[events.len() - 1].run_id == run_id);
            if !before.contains(run_id) {
                assert(run_order(events)[before.len() as int] == run_id);
            }
        }
        if exists|i: int| 0 <= i < events.len() && (#[trigger] events[i]).run_id == run_id {
            let i = choose|i: int| 0 <= i < events.len() && (#[trigger] events[i]).run_id == run_id;
            if i < shorter.len() {
                assert(shorter[i].run_id == run_id);
            }
        }
        if run_order(events).contains(run_id) && !before.contains(run_id) {
            let k = choose|k: int|
                0 <= k < run_order(events).len() && run_order(events)[k] == run_id;
            if k < before.len() {
                assert(before[k] == run_id);
            }
        }
    } else {
        assert(!run_order(events).contains(run_id));
    }
}

/// A run has a row exactly where something is known of it, the first event that
/// creates it was for the caller, and no event deletes it.
pub proof fn callers_see_their_runs(
    events: Seq<EventView>,
    run_id: Seq<char>,
    runs: Seq<(Seq<char>, SnapshotView)>,
    principal: Seq<char>,
    c: int,
)
    requires
        0 <= c < events.len(),
        events[c].run_id == run_id,
        events[c].kind == "run_created"@,
        forall|j: int|
            0 <= j < c && (#[trigger] events[j]).run_id == run_id ==> events[j].kind
                != "run_created"@,
    ensures
        row_of(events, run_id, runs, principal) is Some <==> {
            &&& known(runs, run_id) is Some
            &&& creator(events[c]) == principal
            &&& forall|d: int|
                0 <= d < events.len() && (#[trigger] events[d]).run_id == run_id ==> events[d].kind
                    != "run_deleted"@
        },
{
    let mine = events_of(events, run_id);
    lemma_events_of(events, run_id);
    lemma_first_created(events, run_id, c);
    if has_kind(mine, "run_deleted"@) {
        let m = choose|m: int| 0 <= m < mine.len() && (#[trigger] mine[m]).kind == "run_deleted"@;
        let k = choose|k: int| 0 <= k < events.len() && #[trigger] events[k] == mine[m];
        assert(events[k].run_id == run_id);
    } else {
        assert forall|d: int|
            0 <= d < events.len() && (#[trigger] events[d]).run_id == run_id implies events[d].kind
            != "run_deleted"@ by {
            assert(mine.contains(events[d]));
            let m = choose|m: int| 0 <= m < mine.len() && mine[m] == events[d];
            assert(mine[m].kind == events[d].kind);
        }
    }
}

proof fn lemma_first_pushed(events: Seq<EventView>, e: EventView, kind: Seq<char>)
    ensures
        first_of_kind(events.push(e), kind) == match first_of_kind(events, kind) {
            Some(found) => Some(found),
            None => if e.kind == kind {
                Some(e)
            } else {
                None
            },
        },
    decreases events.len(),
{
    let longer = events.push(e);
    if events.len() == 0 {
        assert(longer.drop_first() =~= Seq::empty());
        assert(first_of_kind(longer.drop_first(), kind) is None);
    } else {
        assert(longer[0] == events[0]);
        assert(longer.drop_first() =~= events.drop_first().push(e));
        lemma_first_pushed(events.drop_first(), e, kind);
    }
}

proof fn lemma_first_created(events: Seq<EventView>, run_id: Seq<char>, c: int)
    requires
        0 <= c < events.len(),
        events[c].run_id == run_id,
        events[c].kind == "run_created"@,
        forall|j: int|
            0 <= j < c && (#[trigger] events[j]).run_id == run_id ==> events[j].kind
                != "run_created"@,
    ensures
        first_of_kind(events_of(events, run_id), "run_created"@) == Some(events[c]),
    decreases events.len(),
{
    let shorter = events.drop_last();
    let before = events_of(shorter, run_id);
    if c < shorter.len() {
        lemma_first_created(shorter, run_id, c);
        if events.last().run_id == run_id {
            lemma_first_pushed(before, events.last(), "run_created"@);
        }
    } else {
        lemma_first_pushed(before, events.last(), "run_created"@);
        if first_of_kind(before, "run_created"@) is Some {
            lemma_first_of_kind(before, "run_created"@);
            lemma_events_of(shorter, run_id);
            let at = choose|at: int|
                0 <= at < before.len() && #[trigger] before[at] == first_of_kind(
                    before,
                    "run_created"@,
                )->0;
            let k = choose|k: int| 0 <= k < shorter.len() && #[trigger] shorter[k] == before[at];
            assert(events[k] == shorter[k]);
            assert(false);
        }
    }
}

/// The list of runs holds the row of every run that has one, and nothing else,
/// in the order in which the runs were created.
pub proof fn runs_are_listed_by_creation(
    events: Seq<EventView>,
    runs: Seq<(Seq<char>, SnapshotView)>,
    principal: Seq<char>,
)
    ensures
        ({
            let ids = run_order(events);
            let rows = sorted::<RunRow, ByCreation>(rows_of(events, ids, runs, principal));
            &&& run_list(events, runs, principal).len() == rows.len()
            &&& forall|i: int|
                0 <= i < rows.len() ==> #[trigger] run_list(events, runs, principal)[i] == rows[i].1
            &&& rows.len() == places(
                ids.len(),
                |i: int| row_of(events, ids[i], runs, principal) is Some,
            ).len()
            &&& forall|i: int|
                #![trigger ids[i]]
                0 <= i < ids.len() && row_of(events, ids[i], runs, principal) is Some
                    ==> rows.to_multiset().count(row_of(events, ids[i], runs, principal)->0) > 0
            &&& forall|i: int, j: int|
                0 <= i < j < rows.len() ==> text_le((#[trigger] rows[i]).0, (#[trigger] rows[j]).0)
        }),
{
    let ids = run_order(events);
    let unsorted = rows_of(events, ids, runs, principal);
    sorting_orders_and_permutes::<RunRow, ByCreation>(unsorted);
    let rows = sorted::<RunRow, ByCreation>(unsorted);
    lemma_row_count(events, ids, runs, principal, ids.len() as int);
    assert(ids.take(ids.len() as int) =~= ids);
    assert forall|i: int|
        #![trigger ids[i]]
        0 <= i < ids.len() && row_of(events, ids[i], runs, principal)
            is Some implies rows.to_multiset().count(
        row_of(events, ids[i], runs, principal)->0,
    ) > 0 by {
        lemma_row_is_there(events, ids, runs, principal, i);
        unsorted.to_multiset_ensures();
    }
    assert forall|i: int, j: int| 0 <= i < j < rows.len() implies text_le(
        (#[trigger] rows[i]).0,
        (#[trigger] rows[j]).0,
    ) by {
        assert(<RunRow as Ranked<ByCreation>>::ranks_before(rows[i], rows[j]));
    }
}

proof fn lemma_row_count(
    events: Seq<EventView>,
    ids: Seq<Seq<char>>,
    runs: Seq<(Seq<char>, SnapshotView)>,
    principal: Seq<char>,
    k: int,
)
    requires
        0 <= k <= ids.len(),
    ensures
        rows_of(events, ids.take(k), runs, principal).len() == places(
            k as nat,
            |i: int| row_of(events, ids[i], runs, principal) is Some,
        ).len(),
    decreases k,
{
    let there = |i: int| row_of(events, ids[i], runs, principal) is Some;
    if k == 0 {
        no_place_below_zero(there);
    } else {
        lemma_row_count(events, ids, runs, principal, k - 1);
        next_place_counts((k - 1) as nat, there);
        assert(ids.take(k).drop_last() =~= ids.take(k - 1));
        assert(ids.take(k).last() == ids[k - 1]);
    }
}

proof fn lemma_row_is_there(
    events: Seq<EventView>,
    ids: Seq<Seq<char>>,
    runs: Seq<(Seq<char>, SnapshotView)>,
    principal: Seq<char>,
    i: int,
)
    requires
        0 <= i < ids.len(),
        row_of(events, ids[i], runs, principal) is Some,
    ensures
        rows_of(events, ids, runs, principal).contains(row_of(events, ids[i], runs, principal)->0),
    decreases ids.len(),
{
    let row = row_of(events, ids[i], runs, principal)->0;
    let all = rows_of(events, ids, runs, principal);
    let shorter = ids.drop_last();
    let before = rows_of(events, shorter, runs, principal);
    if i < shorter.len() {
        assert(shorter[i] == ids[i]);
        lemma_row_is_there(events, shorter, runs, principal, i);
        let k = choose|k: int| 0 <= k < before.len() && before[k] == row;
        assert(all[k] == row);
    } else {
        assert(all[before.len() as int] == row);
    }
}

} // verus!
