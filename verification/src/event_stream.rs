//! Events as a run's listeners get them: each once, in the order of the log,
//! behind the one that a listener saw last.

use vstd::prelude::*;

use crate::delivery_metrics::{raise, raised, DeliveryMetrics};
use crate::digits::{decimal, parse_unsigned, parsed, to_decimal};
use crate::ids::{valid_run_id, validate_run_id};
use crate::json::{
    ascends, data_of, data_value, number_value, number_view, object_value, opt_json, parse_json,
    read_json, text_value, value_fields, value_text, written_json, Fields, Json, JsonView,
};
use crate::models::FieldError;
use crate::response::{
    detail_view, detail_views, error_view, field_error, invalid_field, invalid_field_view,
    structured_error, Reply, ReplyView,
};
use crate::runs::{load_run_snapshot, opt_snapshot, run_not_found, visible, RunSnapshot, SnapshotView};
use crate::text::{first_difference_decides, opt_str, opt_text, owned, same, text_le, with_tail};
use crate::timeline::{event_views, read_behind, EventView, TimelineEvent};

verus! {

/// How many events are read from the log at a time.
pub const REPLAY_BATCH: usize = 256;

/// How many bytes the name of a kind has at most.
pub const MAX_FILTER_LEN: usize = 96;

// ----------------------------------------------------------- envelopes
/// The envelope of an event that tells something.
pub open spec fn envelope_view(event: EventView, data: JsonView) -> JsonView {
    JsonView::Object(
        seq![
            ("specversion"@, JsonView::Text("1.0"@)),
            ("id"@, JsonView::Text(event.run_id + ":"@ + decimal(event.seq as nat))),
            ("source"@, JsonView::Text("/v1/runs/"@ + event.run_id)),
            ("type"@, JsonView::Text("dev.vidarax.timeline."@ + event.kind)),
            ("subject"@, JsonView::Text(event.stream_id)),
            ("datacontenttype"@, JsonView::Text("application/json"@)),
            ("sequence"@, number_view(event.seq)),
            ("pts_ms"@, number_view(event.pts_ms)),
            ("data"@, data),
        ],
    )
}

/// The name of an event that is unlike that of any other.
pub open spec fn event_id_of(event: EventView) -> Seq<char> {
    event.run_id + ":"@ + decimal(event.seq as nat)
}

/// The name of an event that is unlike that of any other.
pub fn event_id(event: &TimelineEvent) -> (r: String)
    ensures
        r@ == event_id_of(event@),
{
    let mut id = owned(event.run_id.as_str());
    id.push_str(":");
    id.push_str(to_decimal(event.seq).as_str());
    id
}

/// The envelope of an event, from what was read of its payload.
pub fn envelope(event: &TimelineEvent, read: Option<Json>) -> (r: Json)
    ensures
        r@ == envelope_view(event@, data_of(opt_json(read), event@.payload)),
{
    let data = match read {
        Some(v) => v,
        None => Json::text(event.payload.as_str()),
    };
    let ghost dv = data@;
    let mut source = owned("/v1/runs/");
    source.push_str(event.run_id.as_str());
    let mut kind = owned("dev.vidarax.timeline.");
    kind.push_str(event.kind.as_str());
    let mut o = Fields::new();
    o.put("specversion", Json::text("1.0"));
    o.put("id", Json::text(event_id(event).as_str()));
    o.put("source", Json::text(source.as_str()));
    o.put("type", Json::text(kind.as_str()));
    o.put("subject", Json::text(event.stream_id.as_str()));
    o.put("datacontenttype", Json::text("application/json"));
    o.put("sequence", Json::number(event.seq));
    o.put("pts_ms", Json::number(event.pts_ms));
    o.put("data", data);
    assert(o@ =~= envelope_view(event@, dv)->Object_0);
    o.object()
}

/// The envelope of an event.
pub fn cloud_event(event: &TimelineEvent) -> (r: Json)
    ensures
        r@ == envelope_view(event@, data_of(read_json(event@.payload), event@.payload)),
{
    envelope(event, parse_json(event.payload.as_str()))
}

/// The envelope of an event with its fields in the order of their names, which
/// is the order that they are written in.
pub open spec fn ordered_envelope(event: EventView, data: JsonView) -> JsonView {
    JsonView::Object(
        seq![
            ("data"@, data),
            ("datacontenttype"@, JsonView::Text("application/json"@)),
            ("id"@, JsonView::Text(event_id_of(event))),
            ("pts_ms"@, number_view(event.pts_ms)),
            ("sequence"@, number_view(event.seq)),
            ("source"@, JsonView::Text("/v1/runs/"@ + event.run_id)),
            ("specversion"@, JsonView::Text("1.0"@)),
            ("subject"@, JsonView::Text(event.stream_id)),
            ("type"@, JsonView::Text("dev.vidarax.timeline."@ + event.kind)),
        ],
    )
}

proof fn lemma_envelope_ascends(event: EventView, data: JsonView, i: int)
    requires
        0 < i < 9,
    ensures
        ascends(ordered_envelope(event, data)->Object_0, i),
{
    reveal_strlit("data");
    reveal_strlit("datacontenttype");
    reveal_strlit("id");
    reveal_strlit("pts_ms");
    reveal_strlit("sequence");
    reveal_strlit("source");
    reveal_strlit("specversion");
    reveal_strlit("subject");
    reveal_strlit("type");
    if i == 1 {
        reveal_with_fuel(text_le, 6);
        let a = "data"@;
        let b = "datacontenttype"@;
        assert(a.drop_first()[0] == b.drop_first()[0]);
        assert(a.drop_first().drop_first()[0] == b.drop_first().drop_first()[0]);
        assert(a.drop_first().drop_first().drop_first()[0]
            == b.drop_first().drop_first().drop_first()[0]);
        assert(text_le(a, b));
        assert(a.len() != b.len());
    } else if i == 2 {
        first_difference_decides("datacontenttype"@, "id"@, 0);
    } else if i == 3 {
        first_difference_decides("id"@, "pts_ms"@, 0);
    } else if i == 4 {
        first_difference_decides("pts_ms"@, "sequence"@, 0);
    } else if i == 5 {
        first_difference_decides("sequence"@, "source"@, 1);
    } else if i == 6 {
        first_difference_decides("source"@, "specversion"@, 1);
    } else if i == 7 {
        first_difference_decides("specversion"@, "subject"@, 1);
    } else {
        first_difference_decides("subject"@, "type"@, 0);
    }
}

/// The envelope of an event as it is sent.
pub fn cloud_event_text(event: &TimelineEvent) -> (r: String)
    ensures
        r@ == written_json(
            ordered_envelope(event@, data_of(read_json(event@.payload), event@.payload)),
        ),
{
    let ghost data = data_of(read_json(event@.payload), event@.payload);
    let ghost want = ordered_envelope(event@, data)->Object_0;
    let source = with_tail("/v1/runs/", event.run_id.as_str());
    let kind = with_tail("dev.vidarax.timeline.", event.kind.as_str());
    let mut fields: Vec<(String, serde_json::Value)> = Vec::new();
    fields.push((owned("data"), data_value(event.payload.as_str())));
    fields.push((owned("datacontenttype"), text_value("application/json")));
    fields.push((owned("id"), text_value(event_id(event).as_str())));
    fields.push((owned("pts_ms"), number_value(event.pts_ms)));
    fields.push((owned("sequence"), number_value(event.seq)));
    fields.push((owned("source"), text_value(source.as_str())));
    fields.push((owned("specversion"), text_value("1.0")));
    fields.push((owned("subject"), text_value(event.stream_id.as_str())));
    fields.push((owned("type"), text_value(kind.as_str())));
    proof {
        assert(value_fields(fields@) =~= want);
        assert forall|i: int| 0 < i < fields@.len() implies #[trigger] ascends(
            value_fields(fields@),
            i,
        ) by {
            lemma_envelope_ascends(event@, data, i);
        }
    }
    value_text(&object_value(fields))
}

/// What is sent of an event is its envelope, but for the order of the fields.
pub proof fn envelopes_are_sent_whole(event: EventView, data: JsonView)
    ensures
        ordered_envelope(event, data)->Object_0.to_multiset() == envelope_view(
            event,
            data,
        )->Object_0.to_multiset(),
{
    broadcast use vstd::seq_lib::group_to_multiset_ensures;

    let a = ordered_envelope(event, data)->Object_0;
    let e = envelope_view(event, data)->Object_0;
    let b = seq![e[8], e[5], e[1], e[7], e[6], e[2], e[0], e[4], e[3]];
    assert(a =~= b);
    let empty = Seq::<(Seq<char>, JsonView)>::empty();
    assert(b =~= empty.push(e[8]).push(e[5]).push(e[1]).push(e[7]).push(e[6]).push(e[2]).push(
        e[0],
    ).push(e[4]).push(e[3]));
    assert(e =~= empty.push(e[0]).push(e[1]).push(e[2]).push(e[3]).push(e[4]).push(e[5]).push(
        e[6],
    ).push(e[7]).push(e[8]));
    assert(b.to_multiset() =~= e.to_multiset());
}

// ----------------------------------------------------------- requests
/// The reply to a request that makes no sense.
pub open spec fn bad_request_view(
    request_id: Seq<char>,
    message: Seq<char>,
    details: Seq<JsonView>,
) -> ReplyView {
    ReplyView { status: 400, body: error_view("bad_request"@, message, request_id, details) }
}

/// The reply to a request that makes no sense.
pub fn bad_request_error(request_id: &str, message: &str, details: &Vec<FieldError>) -> (r: Reply)
    ensures
        r@ == bad_request_view(request_id@, message@, detail_views(details@)),
{
    structured_error(request_id, 400, "bad_request", message, details)
}

/// The event that a listener saw last, as a header says it.
#[derive(Debug)]
pub enum LastEventId {
    /// There is no such header.
    Missing,
    /// The header is no visible ASCII text.
    Unreadable,
    Text(String),
}

/// What a listener asks for.
#[derive(Debug)]
pub struct EventStreamQuery {
    pub after: Option<u64>,
    pub kind: Option<String>,
}

/// The event that a listener saw last: `Err` where the header names none.
pub open spec fn header_cursor(header: LastEventId) -> Result<Option<u64>, ()> {
    match header {
        LastEventId::Missing => Ok(None),
        LastEventId::Unreadable => Err(()),
        LastEventId::Text(s) => match parsed(s@, 10, u64::MAX as nat) {
            Some(n) => Ok(Some(n as u64)),
            None => Err(()),
        },
    }
}

/// The name of a kind is missing or too long.
pub open spec fn bad_kind(kind: Option<Seq<char>>) -> bool {
    match kind {
        Some(k) => k.len() == 0 || vstd::utf8::encode_utf8(k).len() > MAX_FILTER_LEN,
        None => false,
    }
}

/// The refusal of a listener, where it is refused.
pub open spec fn stream_refusal(
    request_id: Seq<char>,
    run_id: Seq<char>,
    snapshot: Option<SnapshotView>,
    principal: Seq<char>,
    kind: Option<Seq<char>>,
    header: LastEventId,
) -> Option<ReplyView> {
    if !valid_run_id(run_id) {
        Some(
            bad_request_view(
                request_id,
                "invalid event stream request"@,
                seq![detail_view("run_id"@, "invalid run id"@)],
            ),
        )
    } else if !visible(snapshot, principal) {
        Some(run_not_found(request_id, run_id))
    } else if bad_kind(kind) {
        Some(
            invalid_field_view(
                request_id,
                "invalid event stream request"@,
                "kind"@,
                "kind must contain 1..=96 bytes"@,
            ),
        )
    } else if header_cursor(header) is Err {
        Some(
            invalid_field_view(
                request_id,
                "invalid event stream cursor"@,
                "Last-Event-ID"@,
                "must be an unsigned timeline sequence"@,
            ),
        )
    } else {
        None
    }
}

/// The event behind which a listener begins: the header counts before the
/// query.
pub open spec fn first_cursor(header: LastEventId, after: Option<u64>) -> u64 {
    match (header_cursor(header), after) {
        (Ok(Some(n)), _) => n,
        (_, Some(n)) => n,
        _ => 0,
    }
}

/// The event behind which a listener begins, or the refusal.
pub fn stream_events(
    request_id: &str,
    run_id: &str,
    snapshot: &Option<RunSnapshot>,
    principal: &str,
    query: &EventStreamQuery,
    header: &LastEventId,
) -> (r: Result<u64, Reply>)
    ensures
        ({
            let refusal = stream_refusal(
                request_id@,
                run_id@,
                opt_snapshot(*snapshot),
                principal@,
                opt_text(query.kind),
                *header,
            );
            match r {
                Ok(cursor) => refusal is None && cursor == first_cursor(*header, query.after),
                Err(reply) => refusal == Some(reply@),
            }
        }),
{
    if !validate_run_id(run_id) {
        let mut details: Vec<FieldError> = Vec::new();
        details.push(field_error("run_id", owned("invalid run id")));
        assert(detail_views(details@) =~= seq![detail_view("run_id"@, "invalid run id"@)]);
        return Err(bad_request_error(request_id, "invalid event stream request", &details));
    }
    match load_run_snapshot(request_id, run_id, snapshot, principal) {
        Ok(_) => {},
        Err(reply) => {
            return Err(reply);
        },
    }
    match &query.kind {
        Some(kind) => {
            proof {
                vstd::utf8::encode_utf8_decode_utf8(kind@);
            }
            if kind.as_str().is_empty() || kind.as_str().as_bytes().len() > MAX_FILTER_LEN {
                return Err(
                    invalid_field(
                        request_id,
                        "invalid event stream request",
                        "kind",
                        owned("kind must contain 1..=96 bytes"),
                    ),
                );
            }
        },
        None => {},
    }
    let named: Result<Option<u64>, ()> = match header {
        LastEventId::Missing => Ok(None),
        LastEventId::Unreadable => Err(()),
        LastEventId::Text(s) => match parse_unsigned(s.as_str(), 10, u64::MAX) {
            Some(n) => Ok(Some(n)),
            None => Err(()),
        },
    };
    match named {
        Err(_) => Err(
            invalid_field(
                request_id,
                "invalid event stream cursor",
                "Last-Event-ID",
                owned("must be an unsigned timeline sequence"),
            ),
        ),
        Ok(Some(n)) => Ok(n),
        Ok(None) => match query.after {
            Some(n) => Ok(n),
            None => Ok(0),
        },
    }
}

// ----------------------------------------------------------- replay
/// An event is one that a listener wants.
pub open spec fn wanted(event: EventView, run_id: Seq<char>, kind: Option<Seq<char>>) -> bool {
    event.run_id == run_id && match kind {
        Some(k) => event.kind == k,
        None => true,
    }
}

/// Whether an event is one that a listener wants.
pub fn wants(event: &TimelineEvent, run_id: &str, kind: Option<&str>) -> (r: bool)
    ensures
        r == wanted(event@, run_id@, opt_str(kind)),
{
    same(event.run_id.as_str(), run_id) && match kind {
        Some(k) => event.is(k),
        None => true,
    }
}

/// Where the events of a batch stand that a listener wants.
pub open spec fn wanted_places(
    batch: Seq<EventView>,
    run_id: Seq<char>,
    kind: Option<Seq<char>>,
) -> Seq<int>
    decreases batch.len(),
{
    if batch.len() == 0 {
        Seq::empty()
    } else {
        let before = wanted_places(batch.drop_last(), run_id, kind);
        if wanted(batch.last(), run_id, kind) {
            before.push(batch.len() - 1)
        } else {
            before
        }
    }
}

/// The event behind which a listener goes on, after a batch.
pub open spec fn cursor_after(cursor: u64, batch: Seq<EventView>) -> u64 {
    if batch.len() == 0 {
        cursor
    } else {
        batch.last().seq
    }
}

/// What becomes of a batch of events that was read from the log.
#[derive(Debug)]
pub struct Replayed {
    /// Where the events stand that are sent, in this order.
    pub send: Vec<usize>,
    /// The event behind which the listener goes on.
    pub cursor: u64,
    /// There may be more events in the log.
    pub again: bool,
}

/// Places as numbers.
pub open spec fn places(s: Seq<usize>) -> Seq<int> {
    s.map_values(|i: usize| i as int)
}

/// Picks from a batch of events what a listener wants.
pub fn replay_to_sse(
    cursor: u64,
    batch: &Vec<TimelineEvent>,
    run_id: &str,
    kind: Option<&str>,
) -> (r: Replayed)
    ensures
        places(r.send@) == wanted_places(event_views(batch@), run_id@, opt_str(kind)),
        r.cursor == cursor_after(cursor, event_views(batch@)),
        r.again == (batch@.len() == REPLAY_BATCH),
{
    let ghost all = event_views(batch@);
    let mut send: Vec<usize> = Vec::new();
    let mut at: u64 = cursor;
    let mut i: usize = 0;
    assert(all.take(0) =~= Seq::empty());
    assert(places(send@) =~= Seq::empty());
    while i < batch.len()
        invariant
            all == event_views(batch@),
            i <= batch@.len(),
            places(send@) == wanted_places(all.take(i as int), run_id@, opt_str(kind)),
            at == cursor_after(cursor, all.take(i as int)),
        decreases batch@.len() - i,
    {
        assert(all.take(i + 1).drop_last() =~= all.take(i as int));
        assert(all.take(i + 1).last() == batch@[i as int]@);
        at = batch[i].seq;
        if wants(&batch[i], run_id, kind) {
            let ghost before = places(send@);
            send.push(i);
            assert(places(send@) =~= before.push(i as int));
        }
        i += 1;
    }
    assert(all.take(i as int) =~= all);
    Replayed { send, cursor: at, again: batch.len() == REPLAY_BATCH }
}

/// A listener that was told of an event: it gets the event, or not, and goes on
/// behind the returned one.
pub fn on_notification(
    cursor: u64,
    event: &TimelineEvent,
    run_id: &str,
    kind: Option<&str>,
) -> (r: (bool, u64))
    ensures
        r.0 == (event@.seq > cursor && wanted(event@, run_id@, opt_str(kind))),
        r.1 == if event@.seq > cursor {
            event@.seq
        } else {
            cursor
        },
{
    if event.seq <= cursor {
        return (false, cursor);
    }
    (wants(event, run_id, kind), event.seq)
}

/// Notes that an event was sent: whether it is one from the log, and whether
/// the listener was slow to take it.
pub fn note_sent(metrics: &mut DeliveryMetrics, replayed: bool, stalled: bool)
    ensures
        *final(metrics) == (DeliveryMetrics {
            sse_events: raised(old(metrics).sse_events, 1),
            sse_output_stalls: raised(old(metrics).sse_output_stalls, if stalled { 1 } else { 0 }),
            sse_replayed: raised(old(metrics).sse_replayed, if replayed { 1 } else { 0 }),
            ..*old(metrics)
        }),
{
    if stalled {
        metrics.sse_output_stalls = raise(metrics.sse_output_stalls, 1);
    }
    metrics.sse_events = raise(metrics.sse_events, 1);
    if replayed {
        metrics.sse_replayed = raise(metrics.sse_replayed, 1);
    }
}

// ----------------------------------------------------------- laws
/// The places of the events that a listener wants are those, in their order.
pub proof fn replays_send_what_is_wanted(
    batch: Seq<EventView>,
    run_id: Seq<char>,
    kind: Option<Seq<char>>,
)
    ensures
        ({
            let send = wanted_places(batch, run_id, kind);
            &&& forall|k: int|
                0 <= k < send.len() ==> 0 <= (#[trigger] send[k]) < batch.len() && wanted(
                    batch[send[k]],
                    run_id,
                    kind,
                )
            &&& forall|k: int, l: int|
                #![trigger send[k], send[l]]
                0 <= k < l < send.len() ==> send[k] < send[l]
            &&& forall|i: int|
                0 <= i < batch.len() && wanted(#[trigger] batch[i], run_id, kind)
                    ==> send.contains(i)
        }),
    decreases batch.len(),
{
    if batch.len() > 0 {
        let rest = batch.drop_last();
        replays_send_what_is_wanted(rest, run_id, kind);
        let before = wanted_places(rest, run_id, kind);
        let send = wanted_places(batch, run_id, kind);
        assert forall|k: int| 0 <= k < send.len() implies 0 <= (#[trigger] send[k]) < batch.len()
            && wanted(batch[send[k]], run_id, kind) by {
            if k < before.len() {
                assert(send[k] == before[k]);
                assert(batch[before[k]] == rest[before[k]]);
            }
        }
        assert forall|k: int, l: int|
            #![trigger send[k], send[l]]
            0 <= k < l < send.len() implies send[k] < send[l] by {
            assert(send[k] == before[k]);
            if l < before.len() {
                assert(send[l] == before[l]);
            }
        }
        assert forall|i: int|
            0 <= i < batch.len() && wanted(#[trigger] batch[i], run_id, kind) implies send.contains(
            i,
        ) by {
            if i < rest.len() {
                assert(rest[i] == batch[i]);
                assert(before.contains(i));
                let k = choose|k: int| 0 <= k < before.len() && before[k] == i;
                assert(send[k] == i);
            } else {
                assert(send[send.len() - 1] == i);
            }
        }
    }
}

/// What a listener gets from the log comes strictly behind what it saw last, in
/// the order of the log, and the listener then goes on behind all of it.
pub proof fn replays_go_forward(
    cursor: u64,
    batch: Seq<EventView>,
    run_id: Seq<char>,
    kind: Option<Seq<char>>,
)
    requires
        read_behind(cursor, batch),
    ensures
        cursor_after(cursor, batch) >= cursor,
        ({
            let send = wanted_places(batch, run_id, kind);
            &&& forall|k: int|
                0 <= k < send.len() ==> cursor < batch[#[trigger] send[k]].seq <= cursor_after(
                    cursor,
                    batch,
                )
            &&& forall|k: int, l: int|
                #![trigger send[k], send[l]]
                0 <= k < l < send.len() ==> batch[send[k]].seq < batch[send[l]].seq
        }),
{
    replays_send_what_is_wanted(batch, run_id, kind);
    let send = wanted_places(batch, run_id, kind);
    assert forall|k: int| 0 <= k < send.len() implies cursor < batch[#[trigger] send[k]].seq
        <= cursor_after(cursor, batch) by {
        let i = send[k];
        assert(batch[i].seq > cursor);
        if i < batch.len() - 1 {
            assert(batch[i].seq < batch[batch.len() - 1].seq);
        }
    }
    if batch.len() > 0 {
        assert(batch[batch.len() - 1].seq > cursor);
    }
}

/// The envelopes of two events of runs have the same name only where run and
/// number are the same.
pub proof fn event_ids_tell_events_apart(a: EventView, b: EventView)
    requires
        valid_run_id(a.run_id),
        valid_run_id(b.run_id),
        event_id_of(a) == event_id_of(b),
    ensures
        a.run_id == b.run_id,
        a.seq == b.seq,
{
    reveal_strlit(":");
    reveal_strlit("run-");
    let x = event_id_of(a);
    let y = event_id_of(b);
    let m = a.run_id.len() as int;
    let n = b.run_id.len() as int;
    assert(x[m] == ':');
    assert(y[n] == ':');
    if m < n {
        assert(y[m] == b.run_id[m]);
        if m >= 4 {
            assert(crate::ids::is_hex_digit(b.run_id[m]));
        }
    } else if n < m {
        assert(x[n] == a.run_id[n]);
        if n >= 4 {
            assert(crate::ids::is_hex_digit(a.run_id[n]));
        }
    }
    assert(m == n);
    assert(x.take(m) =~= a.run_id);
    assert(y.take(m) =~= b.run_id);
    assert(x.skip(m + 1) =~= decimal(a.seq as nat));
    assert(y.skip(m + 1) =~= decimal(b.seq as nat));
    crate::digits::written_numbers_are_read_back(a.seq as nat, 10, u64::MAX as nat);
    crate::digits::written_numbers_are_read_back(b.seq as nat, 10, u64::MAX as nat);
}

/// A listener that names the event it saw last goes on behind it.
pub proof fn listeners_go_on_where_they_were(seq: u64, header: String, after: Option<u64>)
    requires
        header@ == decimal(seq as nat),
    ensures
        first_cursor(LastEventId::Text(header), after) == seq,
{
    crate::digits::written_numbers_are_read_back(seq as nat, 10, u64::MAX as nat);
}

/// What is sent of a batch are all the events of the run, of the kind if one
/// was asked for, each once and in the order of the log.
pub proof fn streams_pass_over_nothing(batch: Seq<EventView>, run_id: Seq<char>, kind: Option<Seq<char>>)
    ensures
        ({
            let sent = wanted_places(batch, run_id, kind);
            &&& forall|i: int, j: int|
                #![trigger sent[i], sent[j]]
                0 <= i < j < sent.len() ==> sent[i] < sent[j]
            &&& forall|p: int| #[trigger]
                sent.contains(p) <==> 0 <= p < batch.len() && batch[p].run_id == run_id && (
                kind is None || batch[p].kind == kind->0)
        }),
    decreases batch.len(),
{
    if batch.len() > 0 {
        let rest = batch.drop_last();
        let before = wanted_places(rest, run_id, kind);
        let sent = wanted_places(batch, run_id, kind);
        streams_pass_over_nothing(rest, run_id, kind);
        assert forall|i: int| 0 <= i < before.len() implies #[trigger] before[i] < rest.len() by {
            assert(before.contains(before[i]));
        }
        assert forall|p: int| #[trigger]
            sent.contains(p) <==> 0 <= p < batch.len() && batch[p].run_id == run_id && (kind is None
                || batch[p].kind == kind->0) by {
            if before.contains(p) {
                let i = choose|i: int| 0 <= i < before.len() && before[i] == p;
                assert(sent[i] == p);
                assert(rest[p] == batch[p]);
            }
            if sent.contains(p) && !before.contains(p) {
                let i = choose|i: int| 0 <= i < sent.len() && sent[i] == p;
                if i < before.len() {
                    assert(before[i] == p);
                }
                assert(p == batch.len() - 1);
            }
            if p == batch.len() - 1 && wanted(batch.last(), run_id, kind) {
                assert(sent[before.len() as int] == p);
            }
            if 0 <= p < rest.len() {
                assert(rest[p] == batch[p]);
            }
        }
    }
}

/// A stream is refused exactly if the run's name is none, the caller may not see
/// the run, the kind is empty or has more than ninety-six bytes, or the header
/// holds no number.
pub proof fn streams_are_refused_within_bounds(
    request_id: Seq<char>,
    run_id: Seq<char>,
    snapshot: Option<SnapshotView>,
    principal: Seq<char>,
    kind: Option<Seq<char>>,
    header: LastEventId,
)
    ensures
        stream_refusal(request_id, run_id, snapshot, principal, kind, header) is None <==> {
            &&& valid_run_id(run_id)
            &&& snapshot is Some && visible(snapshot, principal)
            &&& kind is Some ==> 1 <= kind->0.len() && vstd::utf8::encode_utf8(kind->0).len() <= 96
            &&& header !is Unreadable
            &&& header matches LastEventId::Text(s) ==> parsed(s@, 10, u64::MAX as nat) is Some
        },
{
}

/// A stream begins behind the event that the header names, else behind the one
/// that the query names, else at the first.
pub proof fn streams_begin_where_they_ended(header: LastEventId, after: Option<u64>)
    ensures
        header matches LastEventId::Text(s) ==> parsed(s@, 10, u64::MAX as nat) is Some
            ==> first_cursor(header, after) as nat == parsed(s@, 10, u64::MAX as nat)->0,
        header is Missing && after is Some ==> first_cursor(header, after) == after->0,
        header is Missing && after is None ==> first_cursor(header, after) == 0,
{
}

/// An event is told with its number, its time, its stream, its kind and what it
/// holds.
pub proof fn envelopes_tell_of_their_event(event: EventView, data: JsonView)
    ensures
        ({
            let told = envelope_view(event, data);
            &&& told.text_at("specversion"@) == Some("1.0"@)
            &&& told.text_at("id"@) == Some(event.run_id + ":"@ + decimal(event.seq as nat))
            &&& told.text_at("source"@) == Some("/v1/runs/"@ + event.run_id)
            &&& told.text_at("type"@) == Some("dev.vidarax.timeline."@ + event.kind)
            &&& told.text_at("subject"@) == Some(event.stream_id)
            &&& told.unsigned_at("sequence"@) == Some(event.seq)
            &&& told.unsigned_at("pts_ms"@) == Some(event.pts_ms)
            &&& told.get("data"@) == Some(data)
        }),
{
    reveal_strlit("specversion");
    reveal_strlit("id");
    reveal_strlit("source");
    reveal_strlit("type");
    reveal_strlit("subject");
    reveal_strlit("datacontenttype");
    reveal_strlit("sequence");
    reveal_strlit("pts_ms");
    reveal_strlit("data");
    assert("specversion"@.len() == 11 && "id"@.len() == 2 && "datacontenttype"@.len() == 15);
    assert("source"@.len() == 6 && "pts_ms"@.len() == 6 && "source"@[0] == 's' && "pts_ms"@[0]
        == 'p');
    assert("type"@.len() == 4 && "data"@.len() == 4 && "type"@[0] == 't' && "data"@[0] == 'd');
    assert("subject"@.len() == 7 && "sequence"@.len() == 8);
    let fields = envelope_view(event, data)->Object_0;
    crate::json::field_is_found(fields, 0);
    crate::json::field_is_found(fields, 1);
    crate::json::field_is_found(fields, 2);
    crate::json::field_is_found(fields, 3);
    crate::json::field_is_found(fields, 4);
    crate::json::field_is_found(fields, 6);
    crate::json::field_is_found(fields, 7);
    crate::json::field_is_found(fields, 8);
}

/// A batch that was read moves a stream on to its last event.
pub proof fn streams_move_on(cursor: u64, batch: Seq<EventView>)
    ensures
        batch.len() > 0 ==> cursor_after(cursor, batch) == batch[batch.len() - 1].seq,
        batch.len() == 0 ==> cursor_after(cursor, batch) == cursor,
{
}

} // verus!
