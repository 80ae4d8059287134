//! Runs: who may see them, how they begin and end, and what is told of them.

use vstd::prelude::*;

use crate::calendar::{iso_of, ms_to_iso};
use crate::ids::{valid_run_id, validate_run_id};
use crate::json::{
    parse_payload, payload_of, read_json, text_or_null, Fields, Json, JsonView,
};
use crate::response::{
    conflict_field, conflict_view, detail_view, internal_view, invalid_field, invalid_field_view,
    missing_field, not_found_view, ok, ok_view, Reply, ReplyView,
};
use crate::sort::views;
use crate::text::{opt_text, owned, same};
use crate::timeline::{
    any_of_kind, event_views, find_first, first_of_kind, has_kind, EventView, TimelineEvent,
};

verus! {

/// What is known of a run at this moment.
#[derive(Debug)]
pub struct RunSnapshot {
    /// Whom the run belongs to.
    pub principal_key: String,
    pub deleted: bool,
    /// Nothing more can happen to the run.
    pub terminal: bool,
    /// The state by its name.
    pub state_name: String,
    /// The state in lower case.
    pub state_label: String,
}

/// What is known of a run.
pub ghost struct SnapshotView {
    pub principal_key: Seq<char>,
    pub deleted: bool,
    pub terminal: bool,
    pub state_name: Seq<char>,
    pub state_label: Seq<char>,
}

impl View for RunSnapshot {
    type V = SnapshotView;

    open spec fn view(&self) -> SnapshotView {
        SnapshotView {
            principal_key: self.principal_key@,
            deleted: self.deleted,
            terminal: self.terminal,
            state_name: self.state_name@,
            state_label: self.state_label@,
        }
    }
}

/// What is known of a run, where there is one.
pub open spec fn opt_snapshot(s: Option<RunSnapshot>) -> Option<SnapshotView> {
    match s {
        Some(v) => Some(v@),
        None => None,
    }
}

/// An event that is to be written to the log of a run.
#[derive(Debug)]
pub struct EventAppend {
    pub kind: &'static str,
    pub payload: Json,
}

impl View for EventAppend {
    type V = (Seq<char>, JsonView);

    open spec fn view(&self) -> (Seq<char>, JsonView) {
        (self.kind@, self.payload@)
    }
}

/// What a request leads to: events, in this order, and then the reply. Where
/// an event cannot be written the rest is dropped and the reply is that of a
/// server that failed.
#[derive(Debug)]
pub struct Plan {
    pub appends: Vec<EventAppend>,
    pub reply: Reply,
}

/// What a request leads to.
pub ghost struct PlanView {
    pub appends: Seq<(Seq<char>, JsonView)>,
    pub reply: ReplyView,
}

impl View for Plan {
    type V = PlanView;

    open spec fn view(&self) -> PlanView {
        PlanView { appends: views(self.appends@), reply: self.reply@ }
    }
}

/// A reply that leaves the log as it is.
pub open spec fn only_reply(reply: ReplyView) -> PlanView {
    PlanView { appends: Seq::empty(), reply }
}

/// A reply that leaves the log as it is.
pub fn reply_only(reply: Reply) -> (r: Plan)
    ensures
        r@ == only_reply(reply@),
{
    let appends: Vec<EventAppend> = Vec::new();
    assert(views(appends@) =~= Seq::empty());
    Plan { appends, reply }
}

/// One event, and then a reply.
pub fn append_then(kind: &'static str, payload: Json, reply: Reply) -> (r: Plan)
    ensures
        r@ == (PlanView { appends: seq![(kind@, payload@)], reply: reply@ }),
{
    let mut appends: Vec<EventAppend> = Vec::new();
    let ghost p = payload@;
    appends.push(EventAppend { kind, payload });
    assert(views(appends@) =~= seq![(kind@, p)]);
    Plan { appends, reply }
}

/// How far a plan got: all its events were written, or one could not be.
#[derive(Clone, Copy, Debug, PartialEq, Eq, Structural)]
pub enum Written {
    All,
    Failed,
}

/// The reply once the events of a plan were written, or could not be.
pub fn settle(planned: Reply, written: Written, request_id: &str) -> (r: Reply)
    ensures
        r@ == match written {
            Written::All => planned@,
            Written::Failed => internal_view(request_id@),
        },
{
    match written {
        Written::All => planned,
        Written::Failed => crate::response::internal_error(request_id),
    }
}

// ------------------------------------------------------------- visibility
/// Whether a caller may see a run: it is there, it is not deleted, and it is
/// the caller's.
pub open spec fn visible(snapshot: Option<SnapshotView>, principal: Seq<char>) -> bool {
    match snapshot {
        Some(s) => !s.deleted && s.principal_key == principal,
        None => false,
    }
}

/// The reply on a run that a caller may not see. It does not tell whether the
/// run is there.
pub open spec fn run_not_found(request_id: Seq<char>, run_id: Seq<char>) -> ReplyView {
    not_found_view(request_id, "run_id was not found"@, seq![detail_view("run_id"@, run_id)])
}

/// The reply on an id that no run can have.
pub open spec fn bad_run_id(request_id: Seq<char>, context: Seq<char>) -> ReplyView {
    invalid_field_view(
        request_id,
        context,
        "run_id"@,
        "run_id must match run-<16 or 32 hex chars>"@,
    )
}

/// The refusal of a request on a run, where it is refused.
pub open spec fn run_refusal(
    request_id: Seq<char>,
    context: Seq<char>,
    run_id: Seq<char>,
    snapshot: Option<SnapshotView>,
    principal: Seq<char>,
) -> Option<ReplyView> {
    if !valid_run_id(run_id) {
        Some(bad_run_id(request_id, context))
    } else if !visible(snapshot, principal) {
        Some(run_not_found(request_id, run_id))
    } else {
        None
    }
}

/// The reply on a run to which nothing more can happen.
pub open spec fn terminal_refusal(
    request_id: Seq<char>,
    message: Seq<char>,
    state_name: Seq<char>,
) -> ReplyView {
    conflict_view(
        request_id,
        message,
        seq![detail_view("run_id"@, "run is in terminal state: "@ + state_name)],
    )
}

/// The refusal of a request that would change a run, where it is refused.
pub open spec fn change_refusal(
    request_id: Seq<char>,
    context: Seq<char>,
    terminal_message: Seq<char>,
    run_id: Seq<char>,
    snapshot: Option<SnapshotView>,
    principal: Seq<char>,
) -> Option<ReplyView> {
    match run_refusal(request_id, context, run_id, snapshot, principal) {
        Some(reply) => Some(reply),
        None => if snapshot->0.terminal {
            Some(terminal_refusal(request_id, terminal_message, snapshot->0.state_name))
        } else {
            None
        },
    }
}

/// The refusal of an id that no run can have.
pub fn validate_run_id_or_error(request_id: &str, run_id: &str, context: &str) -> (r: Option<Reply>)
    ensures
        match r {
            Some(reply) => !valid_run_id(run_id@) && reply@ == bad_run_id(request_id@, context@),
            None => valid_run_id(run_id@),
        },
{
    if validate_run_id(run_id) {
        None
    } else {
        Some(
            invalid_field(
                request_id,
                context,
                "run_id",
                owned("run_id must match run-<16 or 32 hex chars>"),
            ),
        )
    }
}

/// A run that a caller may see.
pub fn load_run_snapshot<'a>(
    request_id: &str,
    run_id: &str,
    snapshot: &'a Option<RunSnapshot>,
    principal: &str,
) -> (r: Result<&'a RunSnapshot, Reply>)
    ensures
        match r {
            Ok(s) => visible(opt_snapshot(*snapshot), principal@) && *snapshot == Some(*s),
            Err(reply) => !visible(opt_snapshot(*snapshot), principal@) && reply@ == run_not_found(
                request_id@,
                run_id@,
            ),
        },
{
    match snapshot {
        Some(s) => if !s.deleted && same(s.principal_key.as_str(), principal) {
            return Ok(s);
        },
        None => {},
    }
    Err(missing_field(request_id, "run_id was not found", "run_id", owned(run_id)))
}

/// Refuses a request on a run that the caller may not see.
pub fn check_run<'a>(
    request_id: &str,
    context: &str,
    run_id: &str,
    snapshot: &'a Option<RunSnapshot>,
    principal: &str,
) -> (r: Result<&'a RunSnapshot, Reply>)
    ensures
        ({
            let refusal = run_refusal(
                request_id@,
                context@,
                run_id@,
                opt_snapshot(*snapshot),
                principal@,
            );
            match r {
                Ok(s) => refusal is None && *snapshot == Some(*s),
                Err(reply) => refusal == Some(reply@),
            }
        }),
{
    match validate_run_id_or_error(request_id, run_id, context) {
        Some(reply) => Err(reply),
        None => load_run_snapshot(request_id, run_id, snapshot, principal),
    }
}

/// Refuses a request that would change a run that the caller may not see, or
/// to which nothing more can happen.
pub fn check_change<'a>(
    request_id: &str,
    context: &str,
    terminal_message: &str,
    run_id: &str,
    snapshot: &'a Option<RunSnapshot>,
    principal: &str,
) -> (r: Result<&'a RunSnapshot, Reply>)
    ensures
        ({
            let refusal = change_refusal(
                request_id@,
                context@,
                terminal_message@,
                run_id@,
                opt_snapshot(*snapshot),
                principal@,
            );
            match r {
                Ok(s) => refusal is None && *snapshot == Some(*s),
                Err(reply) => refusal == Some(reply@),
            }
        }),
{
    match check_run(request_id, context, run_id, snapshot, principal) {
        Ok(s) => if s.terminal {
            let mut problem = owned("run is in terminal state: ");
            problem.push_str(s.state_name.as_str());
            Err(conflict_field(request_id, terminal_message, "run_id", problem))
        } else {
            Ok(s)
        },
        Err(reply) => Err(reply),
    }
}

// ------------------------------------------------------------ beginnings
/// How a new run is to work.
#[derive(Debug)]
pub struct NewRun {
    pub mode: String,
    pub model: Option<String>,
}

/// How a new run is to work, from what its mode and its model were found to be.
pub fn check_create_run(
    request_id: &str,
    mode: Result<String, String>,
    model: Result<Option<String>, String>,
) -> (r: Result<NewRun, Reply>)
    ensures
        match (mode, model) {
            (Err(problem), _) => r is Err && r->Err_0@ == invalid_field_view(
                request_id@,
                "invalid create-run payload"@,
                "mode"@,
                problem@,
            ),
            (Ok(_), Err(problem)) => r is Err && r->Err_0@ == invalid_field_view(
                request_id@,
                "invalid create-run payload"@,
                "model"@,
                problem@,
            ),
            (Ok(m), Ok(n)) => r is Ok && r->Ok_0.mode == m && r->Ok_0.model == n,
        },
{
    match mode {
        Err(problem) => Err(
            invalid_field(request_id, "invalid create-run payload", "mode", problem),
        ),
        Ok(mode) => match model {
            Err(problem) => Err(
                invalid_field(request_id, "invalid create-run payload", "model", problem),
            ),
            Ok(model) => Ok(NewRun { mode, model }),
        },
    }
}

/// The reply where a caller has all the streams that they may have.
pub open spec fn limit_refusal(request_id: Seq<char>, limit: nat) -> ReplyView {
    let n = crate::digits::decimal(limit);
    conflict_view(
        request_id,
        "active stream limit exceeded"@,
        seq![
            detail_view("run_id"@, "principal exceeded active stream limit: "@ + n + "/"@ + n),
        ],
    )
}

/// The first event of a run.
pub open spec fn created_payload(
    request_id: Seq<char>,
    mode: Seq<char>,
    model: Option<Seq<char>>,
    principal: Seq<char>,
    tenant_id: Option<Seq<char>>,
) -> JsonView {
    JsonView::Object(
        seq![
            ("request_id"@, JsonView::Text(request_id)),
            ("mode"@, JsonView::Text(mode)),
            ("model"@, text_or_null(model)),
            ("principal_key"@, JsonView::Text(principal)),
            ("tenant_id"@, text_or_null(tenant_id)),
        ],
    )
}

/// The reply to the creation of a run.
pub open spec fn created_view(
    run_id: Seq<char>,
    request_id: Seq<char>,
    mode: Seq<char>,
    model: Option<Seq<char>>,
) -> JsonView {
    JsonView::Object(
        seq![
            ("run_id"@, JsonView::Text(run_id)),
            ("request_id"@, JsonView::Text(request_id)),
            ("status"@, JsonView::Text("pending"@)),
            ("mode"@, JsonView::Text(mode)),
            ("model"@, text_or_null(model)),
        ],
    )
}

/// Creates a run, where the caller may have one more: `reserved` says whether
/// a place was left among the `limit` that a caller may take.
pub fn create_run(
    new: NewRun,
    principal: &str,
    tenant_id: &Option<String>,
    reserved: bool,
    limit: usize,
    run_id: &str,
    request_id: &str,
) -> (r: Plan)
    ensures
        r@ == if reserved {
            PlanView {
                appends: seq![
                    (
                        "run_created"@,
                        created_payload(
                            request_id@,
                            new.mode@,
                            opt_text(new.model),
                            principal@,
                            opt_text(*tenant_id),
                        ),
                    ),
                ],
                reply: ok_view(created_view(run_id@, request_id@, new.mode@, opt_text(new.model))),
            }
        } else {
            only_reply(limit_refusal(request_id@, limit as nat))
        },
{
    if !reserved {
        let mut problem = owned("principal exceeded active stream limit: ");
        crate::digits::push_decimal(&mut problem, limit as u64);
        problem.push_str("/");
        crate::digits::push_decimal(&mut problem, limit as u64);
        return reply_only(
            conflict_field(request_id, "active stream limit exceeded", "run_id", problem),
        );
    }
    let mut payload = Fields::new();
    payload.put("request_id", Json::text(request_id));
    payload.put("mode", Json::text(new.mode.as_str()));
    payload.put("model", Json::text_or_null(&new.model));
    payload.put("principal_key", Json::text(principal));
    payload.put("tenant_id", Json::text_or_null(tenant_id));
    let ghost want = created_payload(
        request_id@,
        new.mode@,
        opt_text(new.model),
        principal@,
        opt_text(*tenant_id),
    );
    assert(payload@ =~= want->Object_0);
    let mut body = Fields::new();
    body.put("run_id", Json::text(run_id));
    body.put("request_id", Json::text(request_id));
    body.put("status", Json::text("pending"));
    body.put("mode", Json::text(new.mode.as_str()));
    body.put("model", Json::text_or_null(&new.model));
    assert(body@ =~= created_view(
        run_id@,
        request_id@,
        new.mode@,
        opt_text(new.model),
    )->Object_0);
    append_then("run_created", payload.object(), ok(body.object()))
}

// -------------------------------------------------------- short requests
/// A payload that only names its request.
pub open spec fn request_payload(request_id: Seq<char>) -> JsonView {
    JsonView::Object(seq![("request_id"@, JsonView::Text(request_id))])
}

fn request_json(request_id: &str) -> (r: Json)
    ensures
        r@ == request_payload(request_id@),
{
    let mut o = Fields::new();
    o.put("request_id", Json::text(request_id));
    assert(o@ =~= request_payload(request_id@)->Object_0);
    o.object()
}

/// A reply on a run with one more field.
pub open spec fn run_reply(
    request_id: Seq<char>,
    run_id: Seq<char>,
    key: Seq<char>,
    value: Seq<char>,
) -> JsonView {
    JsonView::Object(
        seq![
            ("request_id"@, JsonView::Text(request_id)),
            ("run_id"@, JsonView::Text(run_id)),
            (key, JsonView::Text(value)),
        ],
    )
}

/// A reply on a run with one more field.
pub fn run_reply_json(request_id: &str, run_id: &str, key: &str, value: &str) -> (r: Json)
    ensures
        r@ == run_reply(request_id@, run_id@, key@, value@),
{
    let mut o = Fields::new();
    o.put("request_id", Json::text(request_id));
    o.put("run_id", Json::text(run_id));
    o.put(key, Json::text(value));
    assert(o@ =~= run_reply(request_id@, run_id@, key@, value@)->Object_0);
    o.object()
}

/// What a request to stop a run leads to.
pub open spec fn stop_plan(
    request_id: Seq<char>,
    run_id: Seq<char>,
    snapshot: Option<SnapshotView>,
    principal: Seq<char>,
) -> PlanView {
    match change_refusal(
        request_id,
        "invalid stop request"@,
        "run already terminal"@,
        run_id,
        snapshot,
        principal,
    ) {
        Some(reply) => only_reply(reply),
        None => PlanView {
            appends: seq![("stop_requested"@, request_payload(request_id))],
            reply: ok_view(run_reply(request_id, run_id, "status"@, "cancelled"@)),
        },
    }
}

/// Stops a run.
pub fn stop_run(
    request_id: &str,
    run_id: &str,
    snapshot: &Option<RunSnapshot>,
    principal: &str,
) -> (r: Plan)
    ensures
        r@ == stop_plan(request_id@, run_id@, opt_snapshot(*snapshot), principal@),
{
    match check_change(
        request_id,
        "invalid stop request",
        "run already terminal",
        run_id,
        snapshot,
        principal,
    ) {
        Err(reply) => reply_only(reply),
        Ok(_) => append_then(
            "stop_requested",
            request_json(request_id),
            ok(run_reply_json(request_id, run_id, "status", "cancelled")),
        ),
    }
}

/// What a request to keep a run alive leads to.
pub open spec fn keepalive_plan(
    request_id: Seq<char>,
    run_id: Seq<char>,
    snapshot: Option<SnapshotView>,
    principal: Seq<char>,
) -> PlanView {
    match change_refusal(
        request_id,
        "invalid keepalive request"@,
        "cannot keepalive a terminal run"@,
        run_id,
        snapshot,
        principal,
    ) {
        Some(reply) => only_reply(reply),
        None => PlanView {
            appends: seq![("keepalive_refreshed"@, request_payload(request_id))],
            reply: ok_view(run_reply(request_id, run_id, "state"@, "processing"@)),
        },
    }
}

/// Keeps a run alive.
pub fn keepalive_run(
    request_id: &str,
    run_id: &str,
    snapshot: &Option<RunSnapshot>,
    principal: &str,
) -> (r: Plan)
    ensures
        r@ == keepalive_plan(request_id@, run_id@, opt_snapshot(*snapshot), principal@),
{
    match check_change(
        request_id,
        "invalid keepalive request",
        "cannot keepalive a terminal run",
        run_id,
        snapshot,
        principal,
    ) {
        Err(reply) => reply_only(reply),
        Ok(_) => append_then(
            "keepalive_refreshed",
            request_json(request_id),
            ok(run_reply_json(request_id, run_id, "state", "processing")),
        ),
    }
}

/// The reply to a request for the state of a run.
pub open spec fn state_reply(
    request_id: Seq<char>,
    run_id: Seq<char>,
    snapshot: Option<SnapshotView>,
    principal: Seq<char>,
) -> ReplyView {
    match run_refusal(request_id, "invalid state request"@, run_id, snapshot, principal) {
        Some(reply) => reply,
        None => ok_view(run_reply(request_id, run_id, "state"@, snapshot->0.state_label)),
    }
}

/// Tells the state of a run.
pub fn get_state(
    request_id: &str,
    run_id: &str,
    snapshot: &Option<RunSnapshot>,
    principal: &str,
) -> (r: Reply)
    ensures
        r@ == state_reply(request_id@, run_id@, opt_snapshot(*snapshot), principal@),
{
    match check_run(request_id, "invalid state request", run_id, snapshot, principal) {
        Err(reply) => reply,
        Ok(s) => ok(run_reply_json(request_id, run_id, "state", s.state_label.as_str())),
    }
}

/// What a request to delete a run leads to.
pub open spec fn delete_plan(
    request_id: Seq<char>,
    run_id: Seq<char>,
    snapshot: Option<SnapshotView>,
    principal: Seq<char>,
) -> PlanView {
    match run_refusal(request_id, "invalid delete request"@, run_id, snapshot, principal) {
        Some(reply) => only_reply(reply),
        None => PlanView {
            appends: seq![("run_deleted"@, request_payload(request_id))],
            reply: ok_view(
                JsonView::Object(
                    seq![
                        ("request_id"@, JsonView::Text(request_id)),
                        ("run_id"@, JsonView::Text(run_id)),
                    ],
                ),
            ),
        },
    }
}

/// Deletes a run.
pub fn delete_run(
    request_id: &str,
    run_id: &str,
    snapshot: &Option<RunSnapshot>,
    principal: &str,
) -> (r: Plan)
    ensures
        r@ == delete_plan(request_id@, run_id@, opt_snapshot(*snapshot), principal@),
{
    match check_run(request_id, "invalid delete request", run_id, snapshot, principal) {
        Err(reply) => reply_only(reply),
        Ok(_) => {
            let mut o = Fields::new();
            o.put("request_id", Json::text(request_id));
            o.put("run_id", Json::text(run_id));
            assert(o@ =~= seq![
                ("request_id"@, JsonView::Text(request_id@)),
                ("run_id"@, JsonView::Text(run_id@)),
            ]);
            append_then("run_deleted", request_json(request_id), ok(o.object()))
        },
    }
}

// -------------------------------------------------------------- metadata
/// What the log tells of a run.
#[derive(Debug)]
pub struct RunMetadata {
    pub mode: String,
    pub model: String,
    pub source_uri: String,
    pub created_at_ms: u64,
    pub updated_at_ms: u64,
}

/// What the log tells of a run.
pub ghost struct MetadataView {
    pub mode: Seq<char>,
    pub model: Seq<char>,
    pub source_uri: Seq<char>,
    pub created_at_ms: u64,
    pub updated_at_ms: u64,
}

impl View for RunMetadata {
    type V = MetadataView;

    open spec fn view(&self) -> MetadataView {
        MetadataView {
            mode: self.mode@,
            model: self.model@,
            source_uri: self.source_uri@,
            created_at_ms: self.created_at_ms,
            updated_at_ms: self.updated_at_ms,
        }
    }
}

/// The payload of an event.
pub open spec fn payload_view(event: EventView) -> JsonView {
    payload_of(read_json(event.payload), event.payload)
}

/// The text in a field, or nothing.
pub open spec fn text_in(payload: JsonView, key: Seq<char>) -> Seq<char> {
    match payload.text_at(key) {
        Some(s) => s,
        None => Seq::empty(),
    }
}

/// The text in a field of the payload of an event, or nothing.
pub open spec fn told(event: Option<EventView>, key: Seq<char>) -> Seq<char> {
    match event {
        Some(e) => text_in(payload_view(e), key),
        None => Seq::empty(),
    }
}

/// The latest moment of some events.
pub open spec fn latest_pts(events: Seq<EventView>) -> u64
    decreases events.len(),
{
    if events.len() == 0 {
        0
    } else {
        let before = latest_pts(events.drop_last());
        if events.last().pts_ms > before {
            events.last().pts_ms
        } else {
            before
        }
    }
}

/// What the log tells of a run: how it was created, where its first source is,
/// and when it was created and last heard of.
pub open spec fn metadata_of(events: Seq<EventView>) -> MetadataView {
    let created = first_of_kind(events, "run_created"@);
    MetadataView {
        mode: told(created, "mode"@),
        model: told(created, "model"@),
        source_uri: told(first_of_kind(events, "ingest_received"@), "source_uri"@),
        created_at_ms: match created {
            Some(e) => e.pts_ms,
            None => 0,
        },
        updated_at_ms: latest_pts(events),
    }
}

/// The text in a field, or nothing.
pub fn text_or_nothing(payload: &Json, key: &str) -> (r: String)
    ensures
        r@ == text_in(payload@, key@),
{
    match payload.text_at(key) {
        Some(s) => owned(s),
        None => String::new(),
    }
}

fn payload_text(event: &TimelineEvent, key: &str) -> (r: String)
    ensures
        r@ == told(Some(event@), key@),
{
    text_or_nothing(&parse_payload(event.payload.as_str()), key)
}

/// What the log tells of a run.
pub fn extract_run_metadata(events: &Vec<TimelineEvent>) -> (r: RunMetadata)
    ensures
        r@ == metadata_of(event_views(events@)),
{
    let mut out = RunMetadata {
        mode: String::new(),
        model: String::new(),
        source_uri: String::new(),
        created_at_ms: 0,
        updated_at_ms: 0,
    };
    match find_first(events, "run_created") {
        Some(i) => {
            out.mode = payload_text(&events[i], "mode");
            out.model = payload_text(&events[i], "model");
            out.created_at_ms = events[i].pts_ms;
        },
        None => {},
    }
    match find_first(events, "ingest_received") {
        Some(i) => {
            out.source_uri = payload_text(&events[i], "source_uri");
        },
        None => {},
    }
    let ghost all = event_views(events@);
    let mut latest: u64 = 0;
    let mut i: usize = 0;
    while i < events.len()
        invariant
            all == event_views(events@),
            i <= events@.len(),
            latest == latest_pts(all.take(i as int)),
        decreases events@.len() - i,
    {
        assert(all.take(i + 1).drop_last() =~= all.take(i as int));
        if events[i].pts_ms > latest {
            latest = events[i].pts_ms;
        }
        i += 1;
    }
    assert(all.take(i as int) =~= all);
    out.updated_at_ms = latest;
    out
}

/// What is told of a run.
pub open spec fn run_view(
    run_id: Seq<char>,
    status: Seq<char>,
    m: MetadataView,
) -> JsonView {
    JsonView::Object(
        seq![
            ("run_id"@, JsonView::Text(run_id)),
            ("status"@, JsonView::Text(status)),
            ("mode"@, JsonView::Text(m.mode)),
            ("model"@, JsonView::Text(m.model)),
            ("source_uri"@, JsonView::Text(m.source_uri)),
            ("created_at"@, JsonView::Text(iso_of(m.created_at_ms as int))),
            ("updated_at"@, JsonView::Text(iso_of(m.updated_at_ms as int))),
        ],
    )
}


/// What is told of a run.
pub fn run_json(run_id: &str, status: &str, m: &RunMetadata) -> (r: Json)
    ensures
        r@ == run_view(run_id@, status@, m@),
{
    let mut o = Fields::new();
    o.put("run_id", Json::text(run_id));
    o.put("status", Json::text(status));
    o.put("mode", Json::text(m.mode.as_str()));
    o.put("model", Json::text(m.model.as_str()));
    o.put("source_uri", Json::text(m.source_uri.as_str()));
    o.put("created_at", Json::text(ms_to_iso(m.created_at_ms).as_str()));
    o.put("updated_at", Json::text(ms_to_iso(m.updated_at_ms).as_str()));
    assert(o@ =~= run_view(run_id@, status@, m@)->Object_0);
    o.object()
}

/// The reply to a request for one run.
pub open spec fn run_reply_of(
    request_id: Seq<char>,
    run_id: Seq<char>,
    snapshot: Option<SnapshotView>,
    principal: Seq<char>,
    events: Seq<EventView>,
) -> ReplyView {
    match run_refusal(request_id, "invalid run request"@, run_id, snapshot, principal) {
        Some(reply) => reply,
        None => if has_kind(events, "run_deleted"@) {
            run_not_found(request_id, run_id)
        } else {
            ok_view(run_view(run_id, snapshot->0.state_label, metadata_of(events)))
        },
    }
}

/// Tells of one run.
pub fn get_run(
    request_id: &str,
    run_id: &str,
    snapshot: &Option<RunSnapshot>,
    principal: &str,
    events: &Vec<TimelineEvent>,
) -> (r: Reply)
    ensures
        r@ == run_reply_of(
            request_id@,
            run_id@,
            opt_snapshot(*snapshot),
            principal@,
            event_views(events@),
        ),
{
    match check_run(request_id, "invalid run request", run_id, snapshot, principal) {
        Err(reply) => reply,
        Ok(s) => {
            if any_of_kind(events, "run_deleted") {
                return missing_field(request_id, "run_id was not found", "run_id", owned(run_id));
            }
            ok(run_json(run_id, s.state_label.as_str(), &extract_run_metadata(events)))
        },
    }
}

// ------------------------------------------------------------- ownership
/// Whom a run belongs to, by the payload of the event that created it.
pub open spec fn creator_in(payload: JsonView) -> Seq<char> {
    match payload.text_at("principal_key"@) {
        Some(p) => p,
        None => "public"@,
    }
}

/// Whom a run belongs to, by the event of its creation.
pub open spec fn creator(event: EventView) -> Seq<char> {
    creator_in(payload_view(event))
}

/// Whether a run belongs to a caller, by the payload of the event that created
/// it.
pub fn created_for_caller(payload: &Json, principal: &str) -> (r: bool)
    ensures
        r == (creator_in(payload@) == principal@),
{
    match payload.text_at("principal_key") {
        Some(p) => same(p, principal),
        None => same("public", principal),
    }
}

pub(crate) fn created_by(event: &TimelineEvent, principal: &str) -> (r: bool)
    ensures
        r == (creator(event@) == principal@),
{
    created_for_caller(&parse_payload(event.payload.as_str()), principal)
}

/// Some event creates the run for the caller.
pub open spec fn created_for(
    events: Seq<EventView>,
    run_id: Seq<char>,
    principal: Seq<char>,
) -> bool {
    exists|i: int|
        #![trigger events[i]]
        0 <= i < events.len() && events[i].run_id == run_id && events[i].kind == "run_created"@
            && creator(events[i]) == principal
}

/// Some event deletes the run.
pub open spec fn deleted_in(events: Seq<EventView>, run_id: Seq<char>) -> bool {
    exists|i: int|
        #![trigger events[i]]
        0 <= i < events.len() && events[i].run_id == run_id && events[i].kind == "run_deleted"@
}

/// A run is the caller's: it was created for them, and it is not deleted.
pub open spec fn owned_in(
    events: Seq<EventView>,
    run_id: Seq<char>,
    principal: Seq<char>,
) -> bool {
    created_for(events, run_id, principal) && !deleted_in(events, run_id)
}

/// The ids of some runs.
#[derive(Debug)]
pub struct RunIds {
    pub ids: Vec<String>,
}

impl View for RunIds {
    type V = Set<Seq<char>>;

    open spec fn view(&self) -> Set<Seq<char>> {
        Set::new(|id: Seq<char>| exists|i: int| 0 <= i < self.ids@.len() && #[trigger] self.ids@[i]@ == id)
    }
}

impl RunIds {
    /// No run.
    pub fn new() -> (r: RunIds)
        ensures
            r@ == Set::<Seq<char>>::empty(),
    {
        let r = RunIds { ids: Vec::new() };
        assert(r@ =~= Set::<Seq<char>>::empty());
        r
    }

    /// Whether a run is among them.
    pub fn contains(&self, id: &str) -> (r: bool)
        ensures
            r == self@.contains(id@),
    {
        let mut i: usize = 0;
        while i < self.ids.len()
            invariant
                i <= self.ids@.len(),
                forall|k: int| 0 <= k < i ==> #[trigger] self.ids@[k]@ != id@,
            decreases self.ids@.len() - i,
        {
            if same(self.ids[i].as_str(), id) {
                assert(self.ids@[i as int]@ == id@);
                return true;
            }
            i += 1;
        }
        false
    }

    /// Adds a run.
    pub fn insert(&mut self, id: &str)
        ensures
            final(self)@ == old(self)@.insert(id@),
    {
        let ghost before = self.ids@;
        let ghost was = self@;
        if self.contains(id) {
            assert(self@ =~= was.insert(id@));
            return;
        }
        self.ids.push(owned(id));
        let n: usize = self.ids.len();
        assert(self@ =~= was.insert(id@)) by {
            assert(self.ids@[n - 1]@ == id@);
            assert forall|x: Seq<char>| was.contains(x) implies self@.contains(x) by {
                let i = choose|i: int| 0 <= i < before.len() && #[trigger] before[i]@ == x;
                assert(self.ids@[i] == before[i]);
            }
            assert forall|x: Seq<char>| self@.contains(x) implies was.insert(id@).contains(x) by {
                let i = choose|i: int| 0 <= i < self.ids@.len() && #[trigger] self.ids@[i]@ == x;
                if i < before.len() {
                    assert(before[i]@ == x);
                }
            }
        }
    }
}

/// The runs of a caller: those created for them, without the deleted ones.
pub fn owned_run_ids_from_events(events: &Vec<TimelineEvent>, principal: &str) -> (r: RunIds)
    ensures
        forall|id: Seq<char>|
            #![trigger r@.contains(id)]
            r@.contains(id) <==> owned_in(event_views(events@), id, principal@),
{
    let ghost all = event_views(events@);
    let mut made = RunIds::new();
    let mut gone = RunIds::new();
    let mut i: usize = 0;
    while i < events.len()
        invariant
            all == event_views(events@),
            i <= events@.len(),
            forall|id: Seq<char>|
                #![trigger made@.contains(id)]
                made@.contains(id) <==> created_for(all.take(i as int), id, principal@),
            forall|id: Seq<char>|
                #![trigger gone@.contains(id)]
                gone@.contains(id) <==> deleted_in(all.take(i as int), id),
        decreases events@.len() - i,
    {
        let ghost made_before = made@;
        let ghost gone_before = gone@;
        let ghost e = all[i as int];
        proof {
            lemma_one_more_event(all, principal@, i as int);
        }
        let is_made = events[i].is("run_created") && created_by(&events[i], principal);
        let is_gone = events[i].is("run_deleted");
        proof {
            reveal_strlit("run_created");
            reveal_strlit("run_deleted");
            assert("run_created"@[4] != "run_deleted"@[4]);
        }
        if is_made {
            made.insert(events[i].run_id.as_str());
        } else if is_gone {
            gone.insert(events[i].run_id.as_str());
        }
        assert forall|id: Seq<char>| #![trigger made@.contains(id)] made@.contains(id)
            <==> created_for(all.take(i + 1), id, principal@) by {
            assert(made_before.contains(id) <==> created_for(all.take(i as int), id, principal@));
        }
        assert forall|id: Seq<char>| #![trigger gone@.contains(id)] gone@.contains(id)
            <==> deleted_in(all.take(i + 1), id) by {
            assert(gone_before.contains(id) <==> deleted_in(all.take(i as int), id));
        }
        i += 1;
    }
    assert(all.take(i as int) =~= all);
    let mut out = RunIds::new();
    let mut k: usize = 0;
    while k < made.ids.len()
        invariant
            k <= made.ids@.len(),
            forall|id: Seq<char>|
                #![trigger out@.contains(id)]
                out@.contains(id) <==> (exists|j: int|
                    0 <= j < k && #[trigger] made.ids@[j]@ == id) && !gone@.contains(id),
        decreases made.ids@.len() - k,
    {
        let ghost before = out@;
        if !gone.contains(made.ids[k].as_str()) {
            out.insert(made.ids[k].as_str());
        }
        assert forall|id: Seq<char>| #![trigger out@.contains(id)] out@.contains(id) <==> (exists|
            j: int,
        |
            0 <= j < k + 1 && #[trigger] made.ids@[j]@ == id) && !gone@.contains(id) by {
            assert(before.contains(id) <==> (exists|j: int|
                0 <= j < k && #[trigger] made.ids@[j]@ == id) && !gone@.contains(id));
            if exists|j: int| 0 <= j < k + 1 && #[trigger] made.ids@[j]@ == id {
                let j = choose|j: int| 0 <= j < k + 1 && #[trigger] made.ids@[j]@ == id;
                if j < k {
                    assert(made.ids@[j]@ == id);
                }
            }
            if id == made.ids@[k as int]@ {
                assert(made.ids@[k as int]@ == id);
            }
        }
        k += 1;
    }
    assert forall|id: Seq<char>| #![trigger out@.contains(id)] out@.contains(id) <==> owned_in(
        all,
        id,
        principal@,
    ) by {
        assert(made@.contains(id) <==> created_for(all, id, principal@));
        assert(gone@.contains(id) <==> deleted_in(all, id));
    }
    out
}

proof fn lemma_one_more_event(all: Seq<EventView>, principal: Seq<char>, i: int)
    requires
        0 <= i < all.len(),
    ensures
        forall|id: Seq<char>|
            #![trigger created_for(all.take(i + 1), id, principal)]
            created_for(all.take(i + 1), id, principal) <==> created_for(all.take(i), id, principal)
                || (all[i].run_id == id && all[i].kind == "run_created"@ && creator(all[i])
                == principal),
        forall|id: Seq<char>|
            #![trigger deleted_in(all.take(i + 1), id)]
            deleted_in(all.take(i + 1), id) <==> deleted_in(all.take(i), id) || (all[i].run_id == id
                && all[i].kind == "run_deleted"@),
{
    let longer = all.take(i + 1);
    let shorter = all.take(i);
    assert(longer[i] == all[i]);
    assert forall|id: Seq<char>| #![trigger created_for(longer, id, principal)] created_for(
        longer,
        id,
        principal,
    ) <==> created_for(shorter, id, principal) || (all[i].run_id == id && all[i].kind
        == "run_created"@ && creator(all[i]) == principal) by {
        if created_for(longer, id, principal) {
            let k = choose|k: int|
                #![trigger longer[k]]
                0 <= k < longer.len() && longer[k].run_id == id && longer[k].kind == "run_created"@
                    && creator(longer[k]) == principal;
            if k < i {
                assert(shorter[k] == longer[k]);
            }
        }
        if created_for(shorter, id, principal) {
            let k = choose|k: int|
                #![trigger shorter[k]]
                0 <= k < shorter.len() && shorter[k].run_id == id && shorter[k].kind
                    == "run_created"@ && creator(shorter[k]) == principal;
            assert(longer[k] == shorter[k]);
        }
    }
    assert forall|id: Seq<char>| #![trigger deleted_in(longer, id)] deleted_in(longer, id)
        <==> deleted_in(shorter, id) || (all[i].run_id == id && all[i].kind == "run_deleted"@) by {
        if deleted_in(longer, id) {
            let k = choose|k: int|
                #![trigger longer[k]]
                0 <= k < longer.len() && longer[k].run_id == id && longer[k].kind == "run_deleted"@;
            if k < i {
                assert(shorter[k] == longer[k]);
            }
        }
        if deleted_in(shorter, id) {
            let k = choose|k: int|
                #![trigger shorter[k]]
                0 <= k < shorter.len() && shorter[k].run_id == id && shorter[k].kind
                    == "run_deleted"@;
            assert(longer[k] == shorter[k]);
        }
    }
}

/// The key under which the labels of a caller are kept, where they have any.
pub fn label_map_key_from_principal(principal: &str) -> (r: Option<&str>)
    ensures
        match r {
            Some(key) => principal@ != "public"@ && key@ == principal@,
            None => principal@ == "public"@,
        },
{
    if same(principal, "public") {
        None
    } else {
        Some(principal)
    }
}

// ------------------------------------------------------------------ laws
/// A run belongs to the caller who made it, and tells the mode and the model
/// that it was made with.
pub proof fn created_runs_are_read_back(
    request_id: Seq<char>,
    mode: Seq<char>,
    model: Option<Seq<char>>,
    principal: Seq<char>,
    tenant_id: Option<Seq<char>>,
)
    ensures
        ({
            let payload = created_payload(request_id, mode, model, principal, tenant_id);
            &&& creator_in(payload) == principal
            &&& text_in(payload, "mode"@) == mode
            &&& text_in(payload, "model"@) == match model {
                Some(m) => m,
                None => Seq::empty(),
            }
        }),
{
    reveal_strlit("request_id");
    reveal_strlit("mode");
    reveal_strlit("model");
    reveal_strlit("principal_key");
    assert("request_id"@.len() == 10 && "mode"@.len() == 4 && "model"@.len() == 5
        && "principal_key"@.len() == 13);
    let fields = created_payload(request_id, mode, model, principal, tenant_id)->Object_0;
    crate::json::field_is_found(fields, 1);
    crate::json::field_is_found(fields, 2);
    crate::json::field_is_found(fields, 3);
}

/// Whoever a run is not for can neither stop it, keep it alive nor delete it,
/// and is told the same as if there were no such run.
pub proof fn strangers_change_nothing(
    request_id: Seq<char>,
    run_id: Seq<char>,
    snapshot: Option<SnapshotView>,
    principal: Seq<char>,
)
    requires
        !visible(snapshot, principal),
    ensures
        stop_plan(request_id, run_id, snapshot, principal) == stop_plan(
            request_id,
            run_id,
            None,
            principal,
        ),
        keepalive_plan(request_id, run_id, snapshot, principal) == keepalive_plan(
            request_id,
            run_id,
            None,
            principal,
        ),
        delete_plan(request_id, run_id, snapshot, principal) == delete_plan(
            request_id,
            run_id,
            None,
            principal,
        ),
        stop_plan(request_id, run_id, None, principal).appends.len() == 0,
        keepalive_plan(request_id, run_id, None, principal).appends.len() == 0,
        delete_plan(request_id, run_id, None, principal).appends.len() == 0,
{
}

/// A run to which nothing more can happen is neither stopped nor kept alive.
pub proof fn ended_runs_stay_ended(
    request_id: Seq<char>,
    run_id: Seq<char>,
    snapshot: SnapshotView,
    principal: Seq<char>,
)
    requires
        snapshot.terminal,
    ensures
        stop_plan(request_id, run_id, Some(snapshot), principal).appends.len() == 0,
        keepalive_plan(request_id, run_id, Some(snapshot), principal).appends.len() == 0,
{
}

proof fn lemma_latest(events: Seq<EventView>)
    ensures
        forall|i: int| 0 <= i < events.len() ==> (#[trigger] events[i]).pts_ms <= latest_pts(events),
        latest_pts(events) == 0 || exists|i: int|
            0 <= i < events.len() && (#[trigger] events[i]).pts_ms == latest_pts(events),
    decreases events.len(),
{
    if events.len() > 0 {
        let shorter = events.drop_last();
        lemma_latest(shorter);
        assert forall|i: int| 0 <= i < events.len() implies (#[trigger] events[i]).pts_ms
            <= latest_pts(events) by {
            if i < shorter.len() {
                assert(shorter[i] == events[i]);
            }
        }
        if latest_pts(events) != 0 {
            if events.last().pts_ms == latest_pts(events) {
                assert(events[events.len() - 1].pts_ms == latest_pts(events));
            } else {
                let i = choose|i: int|
                    0 <= i < shorter.len() && (#[trigger] shorter[i]).pts_ms == latest_pts(shorter);
                assert(events[i] == shorter[i]);
            }
        }
    }
}

/// What is told of a run comes from its log: it was updated when the latest of
/// its events was, and created when the first event that creates it was, which
/// also tells its mode and model. Its source is that of the first ingest.
pub proof fn runs_are_told_from_their_log(events: Seq<EventView>, c: int, s: int)
    requires
        0 <= c < events.len(),
        events[c].kind == "run_created"@,
        forall|j: int| 0 <= j < c ==> (#[trigger] events[j]).kind != "run_created"@,
        0 <= s < events.len(),
        events[s].kind == "ingest_received"@,
        forall|j: int| 0 <= j < s ==> (#[trigger] events[j]).kind != "ingest_received"@,
    ensures
        ({
            let m = metadata_of(events);
            &&& m.created_at_ms == events[c].pts_ms
            &&& m.created_at_ms <= m.updated_at_ms
            &&& forall|i: int|
                0 <= i < events.len() ==> (#[trigger] events[i]).pts_ms <= m.updated_at_ms
            &&& exists|i: int|
                0 <= i < events.len() && (#[trigger] events[i]).pts_ms == m.updated_at_ms
            &&& payload_view(events[c]).text_at("mode"@) is Some ==> m.mode == payload_view(
                events[c],
            ).text_at("mode"@)->0
            &&& payload_view(events[c]).text_at("model"@) is Some ==> m.model == payload_view(
                events[c],
            ).text_at("model"@)->0
            &&& payload_view(events[s]).text_at("source_uri"@) is Some ==> m.source_uri
                == payload_view(events[s]).text_at("source_uri"@)->0
        }),
{
    lemma_latest(events);
    lemma_first(events, "run_created"@, c);
    lemma_first(events, "ingest_received"@, s);
    assert(events[c].pts_ms <= latest_pts(events));
    if latest_pts(events) == 0 {
        assert(events[c].pts_ms == latest_pts(events));
    }
}

proof fn lemma_first(events: Seq<EventView>, kind: Seq<char>, c: int)
    requires
        0 <= c < events.len(),
        events[c].kind == kind,
        forall|j: int| 0 <= j < c ==> (#[trigger] events[j]).kind != kind,
    ensures
        first_of_kind(events, kind) == Some(events[c]),
    decreases events.len(),
{
    if c > 0 {
        let rest = events.drop_first();
        assert(events[0].kind != kind);
        assert forall|j: int| 0 <= j < c - 1 implies (#[trigger] rest[j]).kind != kind by {
            assert(rest[j] == events[j + 1]);
        }
        lemma_first(rest, kind, c - 1);
    }
}

/// Whoever a run is for can stop it and keep it alive until it has ended, and
/// can delete it at any time; each leaves one event of its kind in the log.
pub proof fn owners_change_their_runs(
    request_id: Seq<char>,
    run_id: Seq<char>,
    snapshot: SnapshotView,
    principal: Seq<char>,
)
    requires
        valid_run_id(run_id),
        snapshot.principal_key == principal,
        !snapshot.deleted,
    ensures
        ({
            let stop = stop_plan(request_id, run_id, Some(snapshot), principal);
            let keep = keepalive_plan(request_id, run_id, Some(snapshot), principal);
            let delete = delete_plan(request_id, run_id, Some(snapshot), principal);
            let state = state_reply(request_id, run_id, Some(snapshot), principal);
            &&& !snapshot.terminal ==> stop.reply.status == 200 && stop.appends.len() == 1
                && stop.appends[0].0 == "stop_requested"@
            &&& !snapshot.terminal ==> keep.reply.status == 200 && keep.appends.len() == 1
                && keep.appends[0].0 == "keepalive_refreshed"@
            &&& snapshot.terminal ==> stop.reply.status == 409 && stop.appends.len() == 0
            &&& snapshot.terminal ==> keep.reply.status == 409 && keep.appends.len() == 0
            &&& delete.reply.status == 200 && delete.appends.len() == 1 && delete.appends[0].0
                == "run_deleted"@
            &&& state.status == 200
            &&& state.body.text_at("state"@) == Some(snapshot.state_label)
        }),
{
    reveal_strlit("request_id");
    reveal_strlit("run_id");
    reveal_strlit("state");
    assert("request_id"@.len() == 10 && "run_id"@.len() == 6 && "state"@.len() == 5);
    let fields = run_reply(request_id, run_id, "state"@, snapshot.state_label)->Object_0;
    crate::json::field_is_found(fields, 2);
}

/// A run as JSON tells each thing under its name.
pub proof fn runs_are_told_whole(run_id: Seq<char>, status: Seq<char>, m: MetadataView)
    ensures
        ({
            let told = run_view(run_id, status, m);
            &&& told.text_at("run_id"@) == Some(run_id)
            &&& told.text_at("status"@) == Some(status)
            &&& told.text_at("mode"@) == Some(m.mode)
            &&& told.text_at("model"@) == Some(m.model)
            &&& told.text_at("source_uri"@) == Some(m.source_uri)
            &&& told.text_at("created_at"@) == Some(iso_of(m.created_at_ms as int))
            &&& told.text_at("updated_at"@) == Some(iso_of(m.updated_at_ms as int))
        }),
{
    reveal_strlit("run_id");
    reveal_strlit("status");
    reveal_strlit("mode");
    reveal_strlit("model");
    reveal_strlit("source_uri");
    reveal_strlit("created_at");
    reveal_strlit("updated_at");
    assert("run_id"@.len() == 6 && "status"@.len() == 6 && "mode"@.len() == 4 && "model"@.len() == 5
        && "source_uri"@.len() == 10 && "created_at"@.len() == 10 && "updated_at"@.len() == 10);
    assert("run_id"@[0] == 'r' && "status"@[0] == 's' && "source_uri"@[0] == 's' && "created_at"@[0]
        == 'c' && "updated_at"@[0] == 'u');
    let fields = run_view(run_id, status, m)->Object_0;
    crate::json::field_is_found(fields, 0);
    crate::json::field_is_found(fields, 1);
    crate::json::field_is_found(fields, 2);
    crate::json::field_is_found(fields, 3);
    crate::json::field_is_found(fields, 4);
    crate::json::field_is_found(fields, 5);
    crate::json::field_is_found(fields, 6);
}

/// A run may be seen exactly by the caller whose it is, as long as it is not
/// deleted.
pub proof fn runs_are_seen_by_their_owner(
    request_id: Seq<char>,
    context: Seq<char>,
    run_id: Seq<char>,
    snapshot: Option<SnapshotView>,
    principal: Seq<char>,
)
    ensures
        visible(snapshot, principal) <==> snapshot is Some && !snapshot->0.deleted
            && snapshot->0.principal_key == principal,
        run_refusal(request_id, context, run_id, snapshot, principal) is None <==> valid_run_id(
            run_id,
        ) && snapshot is Some && !snapshot->0.deleted && snapshot->0.principal_key == principal,
        !valid_run_id(run_id) ==> run_refusal(
            request_id,
            context,
            run_id,
            snapshot,
            principal,
        )->0.status == 422,
        valid_run_id(run_id) && run_refusal(request_id, context, run_id, snapshot, principal) is Some
            ==> run_refusal(request_id, context, run_id, snapshot, principal)->0.status == 404,
{
}

/// A run is shown exactly to the caller who may see it, unless its log says that
/// it is deleted.
pub proof fn shown_runs_are_seen(
    request_id: Seq<char>,
    run_id: Seq<char>,
    snapshot: Option<SnapshotView>,
    principal: Seq<char>,
    events: Seq<EventView>,
)
    ensures
        run_reply_of(request_id, run_id, snapshot, principal, events).status == 200 <==> {
            &&& valid_run_id(run_id)
            &&& snapshot is Some && !snapshot->0.deleted && snapshot->0.principal_key == principal
            &&& forall|i: int|
                0 <= i < events.len() ==> (#[trigger] events[i]).kind != "run_deleted"@
        },
{
    if has_kind(events, "run_deleted"@) {
        let i = choose|i: int|
            0 <= i < events.len() && (#[trigger] events[i]).kind == "run_deleted"@;
        assert(events[i].kind == "run_deleted"@);
    }
}

/// A run that was created is told to be pending, in its mode and with its model.
pub proof fn created_runs_are_pending(
    run_id: Seq<char>,
    request_id: Seq<char>,
    mode: Seq<char>,
    model: Option<Seq<char>>,
)
    ensures
        ({
            let told = created_view(run_id, request_id, mode, model);
            &&& told.text_at("run_id"@) == Some(run_id)
            &&& told.text_at("request_id"@) == Some(request_id)
            &&& told.text_at("status"@) == Some("pending"@)
            &&& told.text_at("mode"@) == Some(mode)
            &&& told.text_at("model"@) == model
        }),
{
    reveal_strlit("run_id");
    reveal_strlit("request_id");
    reveal_strlit("status");
    reveal_strlit("mode");
    reveal_strlit("model");
    assert("run_id"@.len() == 6);
    assert("request_id"@.len() == 10);
    assert("status"@.len() == 6);
    assert("mode"@.len() == 4);
    assert("model"@.len() == 5);
    assert("run_id"@[0] == 'r' && "status"@[0] == 's');
    let fields = created_view(run_id, request_id, mode, model)->Object_0;
    crate::json::field_is_found(fields, 0);
    crate::json::field_is_found(fields, 1);
    crate::json::field_is_found(fields, 2);
    crate::json::field_is_found(fields, 3);
    crate::json::field_is_found(fields, 4);
}

/// A run to which nothing more can happen, and one too many at a time, are
/// conflicts.
pub proof fn ended_and_surplus_runs_are_conflicts(
    request_id: Seq<char>,
    message: Seq<char>,
    state_name: Seq<char>,
    limit: nat,
)
    ensures
        terminal_refusal(request_id, message, state_name) == conflict_view(
            request_id,
            message,
            seq![detail_view("run_id"@, "run is in terminal state: "@ + state_name)],
        ),
        limit_refusal(request_id, limit).status == 409,
{
}

} // verus!
