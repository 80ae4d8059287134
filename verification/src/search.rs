//! Search through what was seen.

use vstd::prelude::*;
use vstd::utf8::{encode_utf8, is_ascii_chars};

use crate::ids::valid_run_id;
use crate::json::{
    field_is_found, jsons_of, list_of, number_view, parse_payload, text_or_null, Fields, Json, JsonView, ToJson,
};
use crate::models::{SearchHit, SearchRequest};
use crate::places::{next_place_counts, no_place_below_zero, places, same_places};
use crate::response::{
    invalid_field, invalid_field_view, missing_field, ok, ok_view, Reply, ReplyView,
};
use crate::runs::{
    check_run, creator, deleted_in, opt_snapshot, owned_in, owned_run_ids_from_events, payload_view,
    run_not_found, run_refusal, RunSnapshot, SnapshotView,
};
use crate::sort::views;
use crate::text::{contains, lowered, occurs, occurs_at, opt_text, owned, same, trim, trimmed};
use crate::timeline::{event_views, EventView, TimelineEvent};

verus! {

/// What `str::to_lowercase` of std makes of a text.
pub uninterp spec fn lowercased(s: Seq<char>) -> Seq<char>;

/// `str::to_lowercase` of std: a function of the text alone, by Unicode's rules.
/// Of a text that is all ASCII it makes the same text with its capital letters
/// lowered; what Unicode says of other texts is not spelled out.
#[verifier::external_body]
fn lowercase(s: &str) -> (r: String)
    ensures
        r@ == lowercased(s@),
        is_ascii_chars(s@) ==> r@ == lowered(s@),
{
    s.to_lowercase()
}

/// What is searched for, and how many hits are returned at most.
#[derive(Debug)]
pub struct SearchTerms {
    pub query: String,
    pub limit: usize,
}

/// The limit of a search.
pub open spec fn limit_of(limit: Option<usize>) -> usize {
    match limit {
        Some(n) => n,
        None => 50,
    }
}

/// The refusal of a search, where it is refused.
pub open spec fn search_refusal(
    request_id: Seq<char>,
    request: SearchRequest,
    snapshot: Option<SnapshotView>,
    principal: Seq<char>,
) -> Option<ReplyView> {
    let context = "invalid search request"@;
    let query = trimmed(request.query@);
    let limit = limit_of(request.limit);
    if query.len() == 0 {
        Some(invalid_field_view(request_id, context, "query"@, "query must not be empty"@))
    } else if encode_utf8(query).len() > 1024 {
        Some(invalid_field_view(request_id, context, "query"@, "query must be <= 1024 bytes"@))
    } else if limit == 0 || limit > 500 {
        Some(invalid_field_view(request_id, context, "limit"@, "limit must be in [1, 500]"@))
    } else {
        match request.run_id {
            Some(run_id) => run_refusal(request_id, context, run_id@, snapshot, principal),
            None => None,
        }
    }
}

/// What is searched for, where the search is not refused. `snapshot` tells of
/// the run that the search is in, where it is in one.
pub fn check_search(
    request_id: &str,
    request: &SearchRequest,
    snapshot: &Option<RunSnapshot>,
    principal: &str,
) -> (r: Result<SearchTerms, Reply>)
    ensures
        ({
            let refusal = search_refusal(
                request_id@,
                *request,
                opt_snapshot(*snapshot),
                principal@,
            );
            match r {
                Ok(t) => refusal is None && t.query@ == trimmed(request.query@) && t.limit
                    == limit_of(request.limit),
                Err(reply) => refusal == Some(reply@),
            }
        }),
{
    let context = "invalid search request";
    let query = trim(request.query.as_str());
    if query.as_str().is_empty() {
        return Err(invalid_field(request_id, context, "query", owned("query must not be empty")));
    }
    if query.as_str().as_bytes().len() > 1024 {
        return Err(
            invalid_field(request_id, context, "query", owned("query must be <= 1024 bytes")),
        );
    }
    let limit: usize = match request.limit {
        Some(n) => n,
        None => 50,
    };
    if limit == 0 || limit > 500 {
        return Err(
            invalid_field(request_id, context, "limit", owned("limit must be in [1, 500]")),
        );
    }
    match &request.run_id {
        Some(run_id) => match check_run(
            request_id,
            context,
            run_id.as_str(),
            snapshot,
            principal,
        ) {
            Ok(_) => {},
            Err(reply) => return Err(reply),
        },
        None => {},
    }
    Ok(SearchTerms { query, limit })
}

/// A hit.
pub ghost struct HitView {
    pub seq: u64,
    pub run_id: Seq<char>,
    pub pts_ms: u64,
    pub kind: Seq<char>,
    pub description: Seq<char>,
    pub index_name: Option<Seq<char>>,
}

impl View for SearchHit {
    type V = HitView;

    open spec fn view(&self) -> HitView {
        HitView {
            seq: self.seq,
            run_id: self.run_id@,
            pts_ms: self.pts_ms,
            kind: self.kind@,
            description: self.description@,
            index_name: opt_text(self.index_name),
        }
    }
}

/// A hit as JSON.
pub open spec fn hit_json(h: HitView) -> JsonView {
    JsonView::Object(
        seq![
            ("seq"@, number_view(h.seq)),
            ("run_id"@, JsonView::Text(h.run_id)),
            ("pts_ms"@, number_view(h.pts_ms)),
            ("kind"@, JsonView::Text(h.kind)),
            ("description"@, JsonView::Text(h.description)),
            ("index_name"@, text_or_null(h.index_name)),
        ],
    )
}

impl ToJson for SearchHit {
    open spec fn json_of(v: HitView) -> JsonView {
        hit_json(v)
    }

    fn to_json(&self) -> (r: Json) {
        let mut o = Fields::new();
        o.put("seq", Json::number(self.seq));
        o.put("run_id", Json::text(self.run_id.as_str()));
        o.put("pts_ms", Json::number(self.pts_ms));
        o.put("kind", Json::text(self.kind.as_str()));
        o.put("description", Json::text(self.description.as_str()));
        o.put("index_name", Json::text_or_null(&self.index_name));
        assert(o@ =~= hit_json(self@)->Object_0);
        o.object()
    }
}

/// What a payload describes, where it does.
pub open spec fn description_of(payload: JsonView) -> Option<Seq<char>> {
    payload.text_at("description"@)
}

/// An event is searched: in a search of one run all of its events are, else
/// those of the runs that the caller has.
pub open spec fn searched(
    all: Seq<EventView>,
    run_id: Option<Seq<char>>,
    principal: Seq<char>,
    event: EventView,
) -> bool {
    match run_id {
        Some(id) => event.run_id == id,
        None => owned_in(all, event.run_id, principal),
    }
}

/// The hit that an event with some payload is, where it is one. `low` is the
/// query in lower case.
pub open spec fn hit_in(event: EventView, payload: JsonView, low: Seq<char>) -> Option<HitView> {
    match description_of(payload) {
        Some(description) => if occurs(lowercased(description), low) {
            Some(
                HitView {
                    seq: event.seq,
                    run_id: event.run_id,
                    pts_ms: event.pts_ms,
                    kind: event.kind,
                    description,
                    index_name: payload.text_at("index_name"@),
                },
            )
        } else {
            None
        },
        None => None,
    }
}

/// How many of the events are searched.
pub open spec fn searched_count(
    events: Seq<EventView>,
    all: Seq<EventView>,
    run_id: Option<Seq<char>>,
    principal: Seq<char>,
) -> nat
    decreases events.len(),
{
    if events.len() == 0 {
        0
    } else {
        searched_count(events.drop_last(), all, run_id, principal) + if searched(
            all,
            run_id,
            principal,
            events.last(),
        ) {
            1nat
        } else {
            0
        }
    }
}

/// All hits, in the order of their events.
pub open spec fn hits_in(
    events: Seq<EventView>,
    all: Seq<EventView>,
    run_id: Option<Seq<char>>,
    principal: Seq<char>,
    low: Seq<char>,
) -> Seq<HitView>
    decreases events.len(),
{
    if events.len() == 0 {
        Seq::empty()
    } else {
        let before = hits_in(events.drop_last(), all, run_id, principal, low);
        let e = events.last();
        match hit_in(e, payload_view(e), low) {
            Some(h) => if searched(all, run_id, principal, e) {
                before.push(h)
            } else {
                before
            },
            None => before,
        }
    }
}

/// The first values of a sequence, as many as there are up to a limit.
pub open spec fn at_most<T>(s: Seq<T>, limit: nat) -> Seq<T> {
    if s.len() <= limit {
        s
    } else {
        s.take(limit as int)
    }
}

/// The reply with what was found.
pub open spec fn found_reply(
    request_id: Seq<char>,
    scanned: nat,
    hits: Seq<HitView>,
    limit: nat,
) -> ReplyView {
    ok_view(
        JsonView::Object(
            seq![
                ("request_id"@, JsonView::Text(request_id)),
                ("scanned"@, number_view(scanned as u64)),
                ("total_hits"@, number_view(hits.len() as u64)),
                ("hits"@, JsonView::Array(jsons_of::<SearchHit>(at_most(hits, limit)))),
            ],
        ),
    )
}

/// The reply to a search.
pub open spec fn search_reply(
    request_id: Seq<char>,
    request: SearchRequest,
    snapshot: Option<SnapshotView>,
    principal: Seq<char>,
    events: Seq<EventView>,
) -> ReplyView {
    match search_refusal(request_id, request, snapshot, principal) {
        Some(reply) => reply,
        None => {
            let run_id = opt_text(request.run_id);
            if run_id is Some && deleted_in(events, run_id->0) {
                run_not_found(request_id, run_id->0)
            } else {
                found_reply(
                    request_id,
                    searched_count(events, events, run_id, principal),
                    hits_in(
                        events,
                        events,
                        run_id,
                        principal,
                        lowercased(trimmed(request.query@)),
                    ),
                    limit_of(request.limit) as nat,
                )
            }
        },
    }
}

/// The hit that an event with some payload is, where it is one.
pub fn hit_in_payload(event: &TimelineEvent, payload: &Json, low: &str) -> (r: Option<SearchHit>)
    ensures
        match r {
            Some(h) => hit_in(event@, payload@, low@) == Some(h@),
            None => hit_in(event@, payload@, low@) is None,
        },
{
    match payload.text_at("description") {
        None => None,
        Some(text) => if contains(lowercase(text).as_str(), low) {
            let index_name = match payload.text_at("index_name") {
                Some(name) => Some(owned(name)),
                None => None,
            };
            Some(
                SearchHit {
                    seq: event.seq,
                    run_id: event.run_id.clone(),
                    pts_ms: event.pts_ms,
                    kind: event.kind.clone(),
                    description: owned(text),
                    index_name,
                },
            )
        } else {
            None
        },
    }
}

fn is_deleted(events: &Vec<TimelineEvent>, run_id: &str) -> (r: bool)
    ensures
        r == deleted_in(event_views(events@), run_id@),
{
    let ghost all = event_views(events@);
    let mut i: usize = 0;
    while i < events.len()
        invariant
            all == event_views(events@),
            i <= events@.len(),
            forall|k: int|
                #![trigger all[k]]
                0 <= k < i ==> !(all[k].run_id == run_id@ && all[k].kind == "run_deleted"@),
        decreases events@.len() - i,
    {
        assert(all[i as int] == events@[i as int]@);
        if same(events[i].run_id.as_str(), run_id) && events[i].is("run_deleted") {
            return true;
        }
        i += 1;
    }
    false
}

fn found_json(
    request_id: &str,
    scanned: usize,
    total_hits: usize,
    hits: &Vec<SearchHit>,
) -> (r: Json)
    ensures
        r@ == JsonView::Object(
            seq![
                ("request_id"@, JsonView::Text(request_id@)),
                ("scanned"@, number_view(scanned as u64)),
                ("total_hits"@, number_view(total_hits as u64)),
                ("hits"@, JsonView::Array(jsons_of::<SearchHit>(views(hits@)))),
            ],
        ),
{
    let mut o = Fields::new();
    o.put("request_id", Json::text(request_id));
    o.put("scanned", Json::number(scanned as u64));
    o.put("total_hits", Json::number(total_hits as u64));
    o.put("hits", list_of(hits));
    let ghost want = seq![
        ("request_id"@, JsonView::Text(request_id@)),
        ("scanned"@, number_view(scanned as u64)),
        ("total_hits"@, number_view(total_hits as u64)),
        ("hits"@, JsonView::Array(jsons_of::<SearchHit>(views(hits@)))),
    ];
    assert(o@ =~= want);
    o.object()
}

/// Searches the descriptions in some events for a text, in upper or lower case:
/// those of one run, or those of all runs of the caller. `events` are all that
/// there are; for one run its own are enough.
pub fn search(
    request_id: &str,
    request: &SearchRequest,
    snapshot: &Option<RunSnapshot>,
    principal: &str,
    events: &Vec<TimelineEvent>,
) -> (r: Reply)
    ensures
        r@ == search_reply(
            request_id@,
            *request,
            opt_snapshot(*snapshot),
            principal@,
            event_views(events@),
        ),
{
    let terms = match check_search(request_id, request, snapshot, principal) {
        Ok(t) => t,
        Err(reply) => return reply,
    };
    let ghost all = event_views(events@);
    match &request.run_id {
        Some(run_id) => if is_deleted(events, run_id.as_str()) {
            return missing_field(
                request_id,
                "run_id was not found",
                "run_id",
                owned(run_id.as_str()),
            );
        },
        None => {},
    }
    let ghost asked = opt_text(request.run_id);
    let mine = owned_run_ids_from_events(events, principal);
    let low = lowercase(terms.query.as_str());
    let mut hits: Vec<SearchHit> = Vec::new();
    let mut scanned: usize = 0;
    let mut total_hits: usize = 0;
    let mut i: usize = 0;
    assert(views(hits@) =~= Seq::empty());
    let ghost mut found: Seq<HitView> = Seq::empty();
    while i < events.len()
        invariant
            all == event_views(events@),
            asked == opt_text(request.run_id),
            i <= events@.len(),
            low@ == lowercased(terms.query@),
            forall|id: Seq<char>|
                #![trigger mine@.contains(id)]
                mine@.contains(id) <==> owned_in(all, id, principal@),
            scanned <= i,
            scanned == searched_count(all.take(i as int), all, asked, principal@),
            found == hits_in(all.take(i as int), all, asked, principal@, low@),
            total_hits <= i,
            total_hits == found.len(),
            views(hits@) == at_most(found, terms.limit as nat),
        decreases events@.len() - i,
    {
        assert(all.take(i + 1).drop_last() =~= all.take(i as int));
        assert(all.take(i + 1).last() == events@[i as int]@);
        let wanted = match &request.run_id {
            Some(run_id) => same(events[i].run_id.as_str(), run_id.as_str()),
            None => mine.contains(events[i].run_id.as_str()),
        };
        if wanted {
            scanned += 1;
            let payload = parse_payload(events[i].payload.as_str());
            match hit_in_payload(&events[i], &payload, low.as_str()) {
                Some(h) => {
                    total_hits += 1;
                    let ghost hv = h@;
                    let ghost before = views(hits@);
                    if hits.len() < terms.limit {
                        hits.push(h);
                        assert(views(hits@) =~= before.push(hv));
                    }
                    proof {
                        let longer = found.push(hv);
                        if longer.len() <= terms.limit {
                            assert(at_most(longer, terms.limit as nat) == longer);
                        } else {
                            assert(longer.take(terms.limit as int) =~= found.take(
                                terms.limit as int,
                            ));
                            assert(found.take(terms.limit as int) =~= at_most(
                                found,
                                terms.limit as nat,
                            ));
                        }
                        found = longer;
                    }
                },
                None => {},
            }
        }
        i += 1;
    }
    assert(all.take(i as int) =~= all);
    ok(found_json(request_id, scanned, total_hits, &hits))
}

/// A search returns no more hits than its limit, and they are the first ones.
pub proof fn hits_are_the_first_ones(hits: Seq<HitView>, limit: nat)
    ensures
        at_most(hits, limit).len() <= limit,
        at_most(hits, limit).is_prefix_of(hits),
{
    if hits.len() > limit {
        assert(hits.take(limit as int).is_prefix_of(hits));
    }
}

/// Every hit is of an event that was searched: one of the run that is searched
/// in, and without such a run, one of a run that the caller has.
pub proof fn hits_are_of_searched_events(
    events: Seq<EventView>,
    all: Seq<EventView>,
    run_id: Option<Seq<char>>,
    principal: Seq<char>,
    low: Seq<char>,
    i: int,
)
    requires
        0 <= i < hits_in(events, all, run_id, principal, low).len(),
    ensures
        match run_id {
            Some(id) => hits_in(events, all, run_id, principal, low)[i].run_id == id,
            None => owned_in(
                all,
                hits_in(events, all, run_id, principal, low)[i].run_id,
                principal,
            ),
        },
        occurs(
            lowercased(hits_in(events, all, run_id, principal, low)[i].description),
            low,
        ),
    decreases events.len(),
{
    let before = hits_in(events.drop_last(), all, run_id, principal, low);
    if i < before.len() {
        hits_are_of_searched_events(events.drop_last(), all, run_id, principal, low, i);
    }
}

/// Where the events ascend by their numbers, so do the hits.
pub proof fn hits_ascend(
    events: Seq<EventView>,
    all: Seq<EventView>,
    run_id: Option<Seq<char>>,
    principal: Seq<char>,
    low: Seq<char>,
)
    requires
        forall|i: int, j: int|
            0 <= i < j < events.len() ==> (#[trigger] events[i]).seq < (#[trigger] events[j]).seq,
    ensures
        ({
            let hits = hits_in(events, all, run_id, principal, low);
            &&& forall|i: int, j: int|
                0 <= i < j < hits.len() ==> (#[trigger] hits[i]).seq < (#[trigger] hits[j]).seq
            &&& forall|i: int|
                0 <= i < hits.len() ==> events.len() > 0 && (#[trigger] hits[i]).seq
                    <= events.last().seq
        }),
    decreases events.len(),
{
    if events.len() > 0 {
        let shorter = events.drop_last();
        let before = hits_in(shorter, all, run_id, principal, low);
        hits_ascend(shorter, all, run_id, principal, low);
        assert forall|i: int| 0 <= i < before.len() implies (#[trigger] before[i]).seq
            < events.last().seq by {
            assert(shorter.last() == events[events.len() - 2]);
            assert(events[events.len() - 2].seq < events[events.len() - 1].seq);
        }
    }
}

/// An event matches: it is one that is searched, and its description holds what
/// is searched for, in upper or lower case.
spec fn match_at(
    events: Seq<EventView>,
    run_id: Option<Seq<char>>,
    principal: Seq<char>,
    low: Seq<char>,
) -> spec_fn(int) -> bool {
    |i: int|
        searched(events, run_id, principal, events[i]) && hit_in(
            events[i],
            payload_view(events[i]),
            low,
        ) is Some
}

spec fn among_at(
    events: Seq<EventView>,
    run_id: Option<Seq<char>>,
    principal: Seq<char>,
) -> spec_fn(int) -> bool {
    |i: int| searched(events, run_id, principal, events[i])
}

proof fn lemma_hit_count(
    events: Seq<EventView>,
    run_id: Option<Seq<char>>,
    principal: Seq<char>,
    low: Seq<char>,
    k: int,
)
    requires
        0 <= k <= events.len(),
    ensures
        hits_in(events.take(k), events, run_id, principal, low).len() == places(
            k as nat,
            match_at(events, run_id, principal, low),
        ).len(),
        searched_count(events.take(k), events, run_id, principal) == places(
            k as nat,
            among_at(events, run_id, principal),
        ).len(),
    decreases k,
{
    let matches = match_at(events, run_id, principal, low);
    let among = among_at(events, run_id, principal);
    if k == 0 {
        no_place_below_zero(matches);
        no_place_below_zero(among);
    } else {
        lemma_hit_count(events, run_id, principal, low, k - 1);
        assert(events.take(k).drop_last() =~= events.take(k - 1));
        assert(events.take(k).last() == events[k - 1]);
        next_place_counts((k - 1) as nat, matches);
        next_place_counts((k - 1) as nat, among);
    }
}

/// Where the hit of the event at `i` stands.
proof fn lemma_hit_of(
    events: Seq<EventView>,
    run_id: Option<Seq<char>>,
    principal: Seq<char>,
    low: Seq<char>,
    k: int,
    i: int,
) -> (j: int)
    requires
        0 <= i < k <= events.len(),
        searched(events, run_id, principal, events[i]),
        hit_in(events[i], payload_view(events[i]), low) is Some,
    ensures
        0 <= j < hits_in(events.take(k), events, run_id, principal, low).len(),
        Some(hits_in(events.take(k), events, run_id, principal, low)[j]) == hit_in(
            events[i],
            payload_view(events[i]),
            low,
        ),
    decreases k,
{
    assert(events.take(k).drop_last() =~= events.take(k - 1));
    assert(events.take(k).last() == events[k - 1]);
    if i < k - 1 {
        lemma_hit_of(events, run_id, principal, low, k - 1, i)
    } else {
        hits_in(events.take(k - 1), events, run_id, principal, low).len() as int
    }
}

/// Which event the hit at `j` is of.
proof fn lemma_event_of(
    events: Seq<EventView>,
    run_id: Option<Seq<char>>,
    principal: Seq<char>,
    low: Seq<char>,
    k: int,
    j: int,
) -> (i: int)
    requires
        0 <= k <= events.len(),
        0 <= j < hits_in(events.take(k), events, run_id, principal, low).len(),
    ensures
        0 <= i < k,
        searched(events, run_id, principal, events[i]),
        Some(hits_in(events.take(k), events, run_id, principal, low)[j]) == hit_in(
            events[i],
            payload_view(events[i]),
            low,
        ),
    decreases k,
{
    if k == 0 {
        0
    } else {
        assert(events.take(k).drop_last() =~= events.take(k - 1));
        assert(events.take(k).last() == events[k - 1]);
        if j < hits_in(events.take(k - 1), events, run_id, principal, low).len() {
            lemma_event_of(events, run_id, principal, low, k - 1, j)
        } else {
            k - 1
        }
    }
}

/// A hit tells the event that it is.
pub open spec fn tells_event(item: JsonView, event: EventView) -> bool {
    &&& item.unsigned_at("seq"@) == Some(event.seq)
    &&& item.text_at("run_id"@) == Some(event.run_id)
    &&& item.unsigned_at("pts_ms"@) == Some(event.pts_ms)
    &&& item.text_at("kind"@) == Some(event.kind)
    &&& item.text_at("description"@) == payload_view(event).text_at("description"@)
    &&& item.text_at("index_name"@) == payload_view(event).text_at("index_name"@)
}

proof fn lemma_hit_tells(event: EventView, low: Seq<char>)
    requires
        hit_in(event, payload_view(event), low) is Some,
    ensures
        tells_event(hit_json(hit_in(event, payload_view(event), low)->0), event),
{
    reveal_strlit("seq");
    reveal_strlit("run_id");
    reveal_strlit("pts_ms");
    reveal_strlit("kind");
    reveal_strlit("description");
    reveal_strlit("index_name");
    assert("run_id"@[0] == 'r' && "pts_ms"@[0] == 'p');
    assert("seq"@.len() == 3 && "run_id"@.len() == 6 && "pts_ms"@.len() == 6 && "kind"@.len() == 4
        && "description"@.len() == 11 && "index_name"@.len() == 10);
    let fields = hit_json(hit_in(event, payload_view(event), low)->0)->Object_0;
    field_is_found(fields, 0);
    field_is_found(fields, 1);
    field_is_found(fields, 2);
    field_is_found(fields, 3);
    field_is_found(fields, 4);
    field_is_found(fields, 5);
}

/// An event is of the run that is searched in, or without such a run, of one
/// that was created for the caller and is not deleted.
pub open spec fn may_match(
    events: Seq<EventView>,
    run_id: Option<Seq<char>>,
    principal: Seq<char>,
    i: int,
) -> bool {
    if run_id is Some {
        events[i].run_id == run_id->0
    } else {
        &&& exists|c: int|
            #![trigger events[c]]
            0 <= c < events.len() && events[c].run_id == events[i].run_id && events[c].kind
                == "run_created"@ && creator(events[c]) == principal
        &&& forall|d: int|
            #![trigger events[d]]
            0 <= d < events.len() && events[d].run_id == events[i].run_id ==> events[d].kind
                != "run_deleted"@
    }
}

/// The description that an event tells holds a text, in upper or lower case.
pub open spec fn describes(event: EventView, low: Seq<char>) -> bool {
    let text = payload_view(event).text_at("description"@);
    text is Some && exists|at: int|
        0 <= at <= lowercased(text->0).len() - low.len() && #[trigger] lowercased(
            text->0,
        ).subrange(at, at + low.len()) == low
}

/// The positions of the events that a search looks at.
pub open spec fn looked_at(
    events: Seq<EventView>,
    run_id: Option<Seq<char>>,
    principal: Seq<char>,
) -> Set<int> {
    places(events.len(), |i: int| may_match(events, run_id, principal, i))
}

/// The positions of the events that a search is for.
pub open spec fn matches_in(
    events: Seq<EventView>,
    run_id: Option<Seq<char>>,
    principal: Seq<char>,
    low: Seq<char>,
) -> Set<int> {
    places(
        events.len(),
        |i: int| may_match(events, run_id, principal, i) && describes(events[i], low),
    )
}

/// A search finds every match: an event of the run that is searched in, or
/// without such a run of a run that was created for the caller and is not
/// deleted, whose description holds the query in upper or lower case. All
/// matches are counted, and all are told but for what the limit cuts off; what
/// is told is a match.
pub proof fn searches_find_every_match(
    request_id: Seq<char>,
    request: SearchRequest,
    snapshot: Option<SnapshotView>,
    principal: Seq<char>,
    events: Seq<EventView>,
)
    requires
        trimmed(request.query@).len() > 0,
        encode_utf8(trimmed(request.query@)).len() <= 1024,
        request.limit is Some ==> 1 <= request.limit->0 <= 500,
        request.run_id is Some ==> valid_run_id(request.run_id->0@) && snapshot is Some
            && snapshot->0.principal_key == principal && !snapshot->0.deleted,
        request.run_id is Some ==> forall|i: int|
            0 <= i < events.len() && (#[trigger] events[i]).run_id == request.run_id->0@
                ==> events[i].kind != "run_deleted"@,
        events.len() <= u64::MAX,
    ensures
        ({
            let reply = search_reply(request_id, request, snapshot, principal, events);
            let low = lowercased(trimmed(request.query@));
            let limit = if request.limit is Some {
                request.limit->0 as nat
            } else {
                50
            };
            let run_id = opt_text(request.run_id);
            let found = matches_in(events, run_id, principal, low);
            let told = reply.body.items_at("hits"@)->0;
            &&& reply.status == 200
            &&& reply.body.text_at("request_id"@) == Some(request_id)
            &&& reply.body.unsigned_at("scanned"@) == Some(
                looked_at(events, run_id, principal).len() as u64,
            )
            &&& reply.body.unsigned_at("total_hits"@) == Some(found.len() as u64)
            &&& reply.body.items_at("hits"@) is Some
            &&& told.len() == (if found.len() <= limit {
                found.len()
            } else {
                limit
            })
            &&& found.len() <= limit ==> forall|i: int|
                #![trigger events[i]]
                found.contains(i) ==> exists|j: int|
                    0 <= j < told.len() && tells_event(#[trigger] told[j], events[i])
            &&& forall|j: int|
                #![trigger told[j]]
                0 <= j < told.len() ==> exists|i: int|
                    #![trigger events[i]]
                    found.contains(i) && tells_event(told[j], events[i])
        }),
{
    let run_id = opt_text(request.run_id);
    let low = lowercased(trimmed(request.query@));
    let limit = limit_of(request.limit) as nat;
    let hits = hits_in(events, events, run_id, principal, low);
    let n = events.len();
    let found = matches_in(events, run_id, principal, low);
    lemma_places_agree(events, run_id, principal, low);
    lemma_hit_count(events, run_id, principal, low, n as int);
    assert(events.take(n as int) =~= events);
    let reply = search_reply(request_id, request, snapshot, principal, events);
    assert(reply == found_reply(
        request_id,
        searched_count(events, events, run_id, principal),
        hits,
        limit,
    ));
    lemma_found_fields(
        request_id,
        searched_count(events, events, run_id, principal),
        hits,
        limit,
    );
    let told = reply.body.items_at("hits"@)->0;
    assert forall|i: int|
        #![trigger events[i]]
        found.contains(i) && hits.len() <= limit implies exists|j: int|
        0 <= j < told.len() && tells_event(#[trigger] told[j], events[i]) by {
        assert(places(n, match_at(events, run_id, principal, low)).contains(i));
        let j = lemma_hit_of(events, run_id, principal, low, n as int, i);
        lemma_hit_tells(events[i], low);
        assert(told[j] == hit_json(hits[j]));
    }
    assert forall|j: int|
        #![trigger told[j]]
        0 <= j < told.len() implies exists|i: int|
        #![trigger events[i]]
        found.contains(i) && tells_event(told[j], events[i]) by {
        assert(told[j] == hit_json(hits[j]));
        let i = lemma_event_of(events, run_id, principal, low, n as int, j);
        assert(places(n, match_at(events, run_id, principal, low)).contains(i));
        lemma_hit_tells(events[i], low);
        assert(found.contains(i) && tells_event(told[j], events[i]));
    }
}

proof fn lemma_may_match(
    events: Seq<EventView>,
    run_id: Option<Seq<char>>,
    principal: Seq<char>,
    i: int,
)
    ensures
        may_match(events, run_id, principal, i) == searched(events, run_id, principal, events[i]),
{
}

proof fn lemma_places_agree(
    events: Seq<EventView>,
    run_id: Option<Seq<char>>,
    principal: Seq<char>,
    low: Seq<char>,
)
    ensures
        places(events.len(), match_at(events, run_id, principal, low)) == matches_in(
            events,
            run_id,
            principal,
            low,
        ),
        places(events.len(), among_at(events, run_id, principal)) == looked_at(
            events,
            run_id,
            principal,
        ),
{
    let n = events.len();
    let among = |i: int| may_match(events, run_id, principal, i);
    let matches = |i: int|
        may_match(events, run_id, principal, i) && describes(events[i], low);
    let here = match_at(events, run_id, principal, low);
    let all = among_at(events, run_id, principal);
    assert forall|i: int| 0 <= i < n implies #[trigger] all(i) == among(i) by {
        lemma_may_match(events, run_id, principal, i);
    }
    assert forall|i: int| 0 <= i < n implies #[trigger] here(i) == matches(i) by {
        lemma_may_match(events, run_id, principal, i);
        lemma_described(events[i], low);
    }
    same_places(n, here, matches);
    same_places(n, all, among);
}

proof fn lemma_described(event: EventView, low: Seq<char>)
    ensures
        describes(event, low) == (hit_in(event, payload_view(event), low) is Some),
{
    let text = payload_view(event).text_at("description"@);
    if text is Some {
        let d = lowercased(text->0);
        if occurs(d, low) {
            let at = choose|at: int| occurs_at(d, low, at);
            assert(d.subrange(at, at + low.len()) == low);
        }
        if exists|at: int|
            0 <= at <= d.len() - low.len() && #[trigger] d.subrange(at, at + low.len()) == low {
            let at = choose|at: int|
                0 <= at <= d.len() - low.len() && #[trigger] d.subrange(at, at + low.len()) == low;
            assert(occurs_at(d, low, at));
        }
    }
}

proof fn lemma_found_fields(request_id: Seq<char>, scanned: nat, hits: Seq<HitView>, limit: nat)
    ensures
        ({
            let reply = found_reply(request_id, scanned, hits, limit);
            let told = reply.body.items_at("hits"@)->0;
            &&& reply.status == 200
            &&& reply.body.text_at("request_id"@) == Some(request_id)
            &&& reply.body.unsigned_at("scanned"@) == Some(scanned as u64)
            &&& reply.body.unsigned_at("total_hits"@) == Some(hits.len() as u64)
            &&& reply.body.items_at("hits"@) is Some
            &&& told.len() == (if hits.len() <= limit {
                hits.len()
            } else {
                limit
            })
            &&& forall|j: int| 0 <= j < told.len() ==> #[trigger] told[j] == hit_json(hits[j])
        }),
{
    reveal_strlit("request_id");
    reveal_strlit("scanned");
    reveal_strlit("total_hits");
    reveal_strlit("hits");
    assert("request_id"@[0] == 'r' && "total_hits"@[0] == 't');
    assert("request_id"@.len() == 10 && "scanned"@.len() == 7 && "total_hits"@.len() == 10
        && "hits"@.len() == 4);
    let fields = found_reply(request_id, scanned, hits, limit).body->Object_0;
    field_is_found(fields, 0);
    field_is_found(fields, 1);
    field_is_found(fields, 2);
    field_is_found(fields, 3);
}

/// One more event adds its hit behind those before, where it is searched and its
/// description holds what is searched for, and else adds none.
pub proof fn each_match_adds_its_hit(
    events: Seq<EventView>,
    e: EventView,
    all: Seq<EventView>,
    run_id: Option<Seq<char>>,
    principal: Seq<char>,
    low: Seq<char>,
)
    ensures
        ({
            let before = hits_in(events, all, run_id, principal, low);
            let after = hits_in(events.push(e), all, run_id, principal, low);
            let text = payload_view(e).text_at("description"@);
            let among = if run_id is Some {
                Some(e.run_id) == run_id
            } else {
                owned_in(all, e.run_id, principal)
            };
            let matches = among && text is Some && occurs(lowercased(text->0), low);
            &&& before.is_prefix_of(after)
            &&& after.len() == before.len() + (if matches {
                1int
            } else {
                0
            })
            &&& matches ==> after.last().seq == e.seq && after.last().run_id == e.run_id
                && after.last().description == text->0
        }),
{
    assert(events.push(e).drop_last() =~= events);
}

} // verus!
