//! Requests on policies: making revisions, deploying them, going back to them
//! and holding them against the log.

use vstd::prelude::*;
use vstd::utf8::encode_utf8;

use crate::digits::{decimal, to_decimal};
use crate::ids::{valid_run_id, validate_run_id};
use crate::ieee::{single, Single};
use crate::json::{
    compact_of, compact_text, data_of, fraction_view, json_views, jsons_of, lemma_texts_are_read_back,
    list_of, number_or_null, number_view, opt_json, parse_data, read_json, text_or_null, text_views,
    value_or_null, Fields, Json, JsonView, ToJson,
};
use crate::models::FieldError;
use crate::places::{
    next_place_counts, no_place_below_zero, places, same_places, wider_holds_more_often,
};
use crate::policies::{
    after_event, lemma_place, may_move, rebuilt, reconstruct_policies, rect_of, zone_names, zone_of,
    place_of, find_revision,
    valid_promotion, NormalizedRect, PolicyParameters, PolicyRevision, PolicyStatus,
    RestrictedZoneParameters, RevisionView, ZoneView, POLICY_CREATED, POLICY_DEPLOY_ACKNOWLEDGED,
    POLICY_DEPLOY_REJECTED, POLICY_DEPLOY_REQUESTED, POLICY_REPLAY_EVALUATED,
    POLICY_ROLLBACK_ACKNOWLEDGED, POLICY_ROLLBACK_REJECTED, POLICY_ROLLBACK_REQUESTED,
    RESTRICTED_ZONE_EVENT,
};
use crate::response::{
    conflict_field, conflict_view, detail_view, detail_views, error_view, field_error,
    internal_error, internal_view, invalid_field, invalid_field_view, invalid_view, missing_field,
    not_found_view, ok, ok_view, structured_error, validation_error, Reply, ReplyView,
};
use crate::runs::{opt_snapshot, EventAppend, RunSnapshot, SnapshotView};
use crate::sort::views;
use crate::text::{is_blank, opt_text, owned, same, texts, trim, trimmed};
use crate::timeline::{event_views, payloads_of, read_payloads, EventView, TimelineEvent};

verus! {

// ----------------------------------------------------------- access
/// The refusal of a request on the policies of a run, where it is refused. A
/// caller whom the run is not for does not learn whether it is there.
pub open spec fn policy_refusal(
    request_id: Seq<char>,
    run_id: Seq<char>,
    snapshot: Option<SnapshotView>,
    principal: Seq<char>,
) -> Option<ReplyView> {
    if !valid_run_id(run_id) {
        Some(
            invalid_field_view(
                request_id,
                "invalid policy request"@,
                "run_id"@,
                "run_id must match run-<16 or 32 hex chars>"@,
            ),
        )
    } else if snapshot is None || snapshot->0.principal_key != principal {
        Some(not_found_view(request_id, "run not found"@, seq![detail_view("run_id"@, run_id)]))
    } else {
        None
    }
}

/// Refuses a request on the policies of a run that is not the caller's.
pub fn authorize_run(
    request_id: &str,
    run_id: &str,
    snapshot: &Option<RunSnapshot>,
    principal: &str,
) -> (r: Option<Reply>)
    ensures
        match r {
            Some(reply) => policy_refusal(
                request_id@,
                run_id@,
                opt_snapshot(*snapshot),
                principal@,
            ) == Some(reply@),
            None => policy_refusal(request_id@, run_id@, opt_snapshot(*snapshot), principal@)
                is None,
        },
{
    if !validate_run_id(run_id) {
        return Some(
            invalid_field(
                request_id,
                "invalid policy request",
                "run_id",
                owned("run_id must match run-<16 or 32 hex chars>"),
            ),
        );
    }
    match snapshot {
        Some(s) => if same(s.principal_key.as_str(), principal) {
            return None;
        },
        None => {},
    }
    Some(missing_field(request_id, "run not found", "run_id", owned(run_id)))
}

// ----------------------------------------------------------- JSON forms
/// A rectangle as JSON.
pub open spec fn rect_view(r: NormalizedRect) -> JsonView {
    JsonView::Object(
        seq![
            ("x"@, fraction_view(r.x.widened())),
            ("y"@, fraction_view(r.y.widened())),
            ("width"@, fraction_view(r.width.widened())),
            ("height"@, fraction_view(r.height.widened())),
        ],
    )
}

/// A zone as JSON.
pub open spec fn zone_view(z: ZoneView) -> JsonView {
    JsonView::Object(
        seq![
            ("policy_id"@, JsonView::Text(z.policy_id)),
            ("policy_version"@, number_view(z.policy_version)),
            ("device_id"@, JsonView::Text(z.device_id)),
            ("region"@, rect_view(z.region)),
            ("enter_motion_score"@, fraction_view(z.enter_motion_score.widened())),
            ("exit_motion_score"@, fraction_view(z.exit_motion_score.widened())),
            ("enter_after_frames"@, number_view(z.enter_after_frames as u64)),
            ("exit_after_frames"@, number_view(z.exit_after_frames as u64)),
        ],
    )
}

/// Parameters as JSON.
pub open spec fn parameters_view(zone: Option<ZoneView>) -> JsonView {
    match zone {
        Some(z) => JsonView::Object(seq![("restricted_zone"@, zone_view(z))]),
        None => JsonView::Object(Seq::empty()),
    }
}

/// A revision as JSON.
pub open spec fn revision_view(p: RevisionView) -> JsonView {
    JsonView::Object(
        seq![
            ("revision"@, number_view(p.revision)),
            ("parent_revision"@, number_or_null(p.parent_revision)),
            ("status"@, JsonView::Text(p.status.name())),
            ("prompt"@, text_or_null(p.prompt)),
            ("output_schema"@, value_or_null(p.output_schema)),
            ("parameters"@, parameters_view(p.zone)),
            ("created_at_ms"@, number_view(p.created_at_ms)),
            ("updated_at_ms"@, number_view(p.updated_at_ms)),
            ("effective_generation"@, number_or_null(p.effective_generation)),
            ("effective_on_current_generation"@, JsonView::Bool(p.effective_on_current_generation)),
            ("deferred_fields"@, JsonView::Array(text_views(p.deferred_fields))),
        ],
    )
}

fn rect_json(r: &NormalizedRect) -> (out: Json)
    ensures
        out@ == rect_view(*r),
{
    let mut o = Fields::new();
    o.put("x", Json::single(r.x));
    o.put("y", Json::single(r.y));
    o.put("width", Json::single(r.width));
    o.put("height", Json::single(r.height));
    assert(o@ =~= rect_view(*r)->Object_0);
    o.object()
}

fn zone_json(z: &RestrictedZoneParameters) -> (out: Json)
    ensures
        out@ == zone_view(z@),
{
    let mut o = Fields::new();
    o.put("policy_id", Json::text(z.policy_id.as_str()));
    o.put("policy_version", Json::number(z.policy_version));
    o.put("device_id", Json::text(z.device_id.as_str()));
    o.put("region", rect_json(&z.region));
    o.put("enter_motion_score", Json::single(z.enter_motion_score));
    o.put("exit_motion_score", Json::single(z.exit_motion_score));
    o.put("enter_after_frames", Json::number(z.enter_after_frames as u64));
    o.put("exit_after_frames", Json::number(z.exit_after_frames as u64));
    assert(o@ =~= zone_view(z@)->Object_0);
    o.object()
}

fn parameters_json(p: &PolicyParameters) -> (out: Json)
    ensures
        out@ == parameters_view(p@),
{
    let mut o = Fields::new();
    match &p.restricted_zone {
        Some(z) => {
            o.put("restricted_zone", zone_json(z));
        },
        None => {},
    }
    assert(o@ =~= parameters_view(p@)->Object_0);
    o.object()
}

fn json_or_null(v: &Option<Json>) -> (r: Json)
    ensures
        r@ == value_or_null(opt_json(*v)),
{
    match v {
        Some(j) => j.copy(),
        None => Json::Null,
    }
}

impl ToJson for PolicyRevision {
    open spec fn json_of(v: RevisionView) -> JsonView {
        revision_view(v)
    }

    fn to_json(&self) -> (r: Json) {
        let mut o = Fields::new();
        o.put("revision", Json::number(self.revision));
        o.put("parent_revision", Json::number_or_null(self.parent_revision));
        o.put("status", Json::text(self.status.as_str()));
        o.put("prompt", Json::text_or_null(&self.prompt));
        o.put("output_schema", json_or_null(&self.output_schema));
        o.put("parameters", parameters_json(&self.parameters));
        o.put("created_at_ms", Json::number(self.created_at_ms));
        o.put("updated_at_ms", Json::number(self.updated_at_ms));
        o.put("effective_generation", Json::number_or_null(self.effective_generation));
        o.put(
            "effective_on_current_generation",
            Json::Bool(self.effective_on_current_generation),
        );
        o.put("deferred_fields", Json::text_list(&self.deferred_fields));
        assert(o@ =~= revision_view(self@)->Object_0);
        o.object()
    }
}

// ----------------------------------------------------------- validation
/// A request for a revision.
#[derive(Debug)]
pub struct CreatePolicyRequest {
    pub parent_revision: Option<u64>,
    pub prompt: Option<String>,
    pub output_schema: Option<Json>,
    pub parameters: Option<PolicyParameters>,
}

/// What a request for a revision asks for.
pub ghost struct CreateView {
    pub parent_revision: Option<u64>,
    pub prompt: Option<Seq<char>>,
    pub output_schema: Option<JsonView>,
    pub zone: Option<ZoneView>,
}

impl View for CreatePolicyRequest {
    type V = CreateView;

    open spec fn view(&self) -> CreateView {
        CreateView {
            parent_revision: self.parent_revision,
            prompt: opt_text(self.prompt),
            output_schema: opt_json(self.output_schema),
            zone: match self.parameters {
                Some(p) => p@,
                None => None,
            },
        }
    }
}

/// The sums `x + width` and `y + height` of a rectangle, as 32-bit arithmetic
/// gives them.
#[derive(Clone, Copy, Debug, PartialEq, Eq, Structural)]
pub struct RectEnds {
    pub right: Single,
    pub bottom: Single,
}

/// The 32-bit zero.
pub open spec fn zero() -> Single {
    single(0)
}

/// The 32-bit one.
pub open spec fn one() -> Single {
    single(0x3f80_0000)
}

/// A rectangle lies inside the image.
pub open spec fn is_inside(rect: NormalizedRect, ends: RectEnds) -> bool {
    &&& rect.x.finite() && rect.y.finite() && rect.width.finite() && rect.height.finite()
    &&& !rect.x.lt(zero()) && !rect.y.lt(zero())
    &&& !rect.width.le(zero()) && !rect.height.le(zero())
    &&& !one().lt(ends.right) && !one().lt(ends.bottom)
}

/// The scores of a zone are fractions, and it is harder to enter than to leave.
pub open spec fn scores_fit(enter: Single, exit: Single) -> bool {
    &&& enter.finite() && exit.finite()
    &&& zero().le(enter) && enter.le(one())
    &&& zero().le(exit) && exit.le(one())
    &&& !enter.le(exit)
}

/// One problem, where there is one.
pub open spec fn problem_if(
    there: bool,
    field: Seq<char>,
    message: Seq<char>,
) -> Seq<(Seq<char>, Seq<char>)> {
    if there {
        seq![(field, message)]
    } else {
        Seq::empty()
    }
}

/// An id of a zone is blank or too long.
pub open spec fn bad_zone_id(id: Seq<char>) -> bool {
    trimmed(id).len() == 0 || vstd::utf8::encode_utf8(id).len() > 128
}

/// What is wrong with a zone.
pub open spec fn zone_problems(z: ZoneView, ends: RectEnds) -> Seq<(Seq<char>, Seq<char>)> {
    problem_if(
        bad_zone_id(z.policy_id),
        "parameters.restricted_zone.policy_id"@,
        "must contain 1 to 128 bytes"@,
    ) + problem_if(
        bad_zone_id(z.device_id),
        "parameters.restricted_zone.device_id"@,
        "must contain 1 to 128 bytes"@,
    ) + problem_if(
        !is_inside(z.region, ends),
        "parameters.restricted_zone.region"@,
        "region must be a finite, positive rectangle inside normalized image coordinates"@,
    ) + problem_if(
        !scores_fit(z.enter_motion_score, z.exit_motion_score),
        "parameters.restricted_zone.enter_motion_score"@,
        "enter_motion_score must be in [0,1] and greater than exit_motion_score"@,
    ) + problem_if(
        !(1 <= z.enter_after_frames <= 300),
        "parameters.restricted_zone.enter_after_frames"@,
        "must be between 1 and 300"@,
    ) + problem_if(
        !(1 <= z.exit_after_frames <= 300),
        "parameters.restricted_zone.exit_after_frames"@,
        "must be between 1 and 300"@,
    )
}

/// What is wrong with the prompt of a revision.
pub open spec fn prompt_problems(request: CreateView) -> Seq<(Seq<char>, Seq<char>)> {
    match request.prompt {
        None => problem_if(
            request.zone is None,
            "prompt"@,
            "a prompt or restricted-zone parameters are required"@,
        ),
        Some(p) => if trimmed(p).len() == 0 {
            seq![("prompt"@, "prompt must not be empty"@)]
        } else {
            problem_if(
                vstd::utf8::encode_utf8(p).len() > 32768,
                "prompt"@,
                "prompt must be at most 32768 bytes"@,
            )
        },
    }
}

/// What is wrong with the schema of a revision, whose compact text has so many
/// bytes.
pub open spec fn schema_problems(
    schema: Option<JsonView>,
    schema_bytes: nat,
) -> Seq<(Seq<char>, Seq<char>)> {
    match schema {
        None => Seq::empty(),
        Some(s) => if !(s is Object) {
            seq![("output_schema"@, "output_schema must be a JSON object"@)]
        } else {
            problem_if(
                schema_bytes > 65536,
                "output_schema"@,
                "output_schema must be at most 65536 bytes"@,
            )
        },
    }
}

/// What is wrong with a request for a revision.
pub open spec fn request_problems(
    request: CreateView,
    schema_bytes: nat,
    ends: RectEnds,
) -> Seq<(Seq<char>, Seq<char>)> {
    prompt_problems(request) + schema_problems(request.output_schema, schema_bytes) + (
    match request.zone {
        Some(z) => zone_problems(z, ends),
        None => Seq::empty(),
    })
}

fn add_problem(errors: &mut Vec<FieldError>, there: bool, field: &'static str, message: &str)
    ensures
        views(final(errors)@) == views(old(errors)@) + problem_if(there, field@, message@),
{
    let ghost before = views(errors@);
    if there {
        errors.push(field_error(field, owned(message)));
    }
    assert(views(errors@) =~= before + problem_if(there, field@, message@));
}

fn is_bad_zone_id(id: &str) -> (r: bool)
    ensures
        r == bad_zone_id(id@),
{
    is_blank(id) || id.as_bytes().len() > 128
}

fn rect_is_inside(rect: NormalizedRect, ends: RectEnds) -> (r: bool)
    ensures
        r == is_inside(rect, ends),
{
    let zero = Single { bits: 0 };
    let one = Single { bits: 0x3f80_0000 };
    rect.x.is_finite() && rect.y.is_finite() && rect.width.is_finite() && rect.height.is_finite()
        && !rect.x.below(zero) && !rect.y.below(zero) && !rect.width.at_most(zero)
        && !rect.height.at_most(zero) && !one.below(ends.right) && !one.below(ends.bottom)
}

fn scores_are_fit(enter: Single, exit: Single) -> (r: bool)
    ensures
        r == scores_fit(enter, exit),
{
    let zero = Single { bits: 0 };
    let one = Single { bits: 0x3f80_0000 };
    enter.is_finite() && exit.is_finite() && zero.at_most(enter) && enter.at_most(one)
        && zero.at_most(exit) && exit.at_most(one) && !enter.at_most(exit)
}

proof fn lemma_joins<A>(a: Seq<A>, b: Seq<A>, c: Seq<A>)
    ensures
        (a + b) + c == a + (b + c),
{
    assert((a + b) + c =~= a + (b + c));
}

/// Notes what is wrong with a zone.
pub fn validate_zone(zone: &RestrictedZoneParameters, ends: RectEnds, errors: &mut Vec<FieldError>)
    ensures
        views(final(errors)@) == views(old(errors)@) + zone_problems(zone@, ends),
{
    let ghost start = views(errors@);
    let bad_policy = is_bad_zone_id(zone.policy_id.as_str());
    let bad_device = is_bad_zone_id(zone.device_id.as_str());
    let inside = rect_is_inside(zone.region, ends);
    let fit = scores_are_fit(zone.enter_motion_score, zone.exit_motion_score);
    let enter_ok = 1 <= zone.enter_after_frames && zone.enter_after_frames <= 300;
    let exit_ok = 1 <= zone.exit_after_frames && zone.exit_after_frames <= 300;
    let ghost p1 = problem_if(
        bad_policy,
        "parameters.restricted_zone.policy_id"@,
        "must contain 1 to 128 bytes"@,
    );
    let ghost p2 = problem_if(
        bad_device,
        "parameters.restricted_zone.device_id"@,
        "must contain 1 to 128 bytes"@,
    );
    let ghost p3 = problem_if(
        !inside,
        "parameters.restricted_zone.region"@,
        "region must be a finite, positive rectangle inside normalized image coordinates"@,
    );
    let ghost p4 = problem_if(
        !fit,
        "parameters.restricted_zone.enter_motion_score"@,
        "enter_motion_score must be in [0,1] and greater than exit_motion_score"@,
    );
    let ghost p5 = problem_if(
        !enter_ok,
        "parameters.restricted_zone.enter_after_frames"@,
        "must be between 1 and 300"@,
    );
    let ghost p6 = problem_if(
        !exit_ok,
        "parameters.restricted_zone.exit_after_frames"@,
        "must be between 1 and 300"@,
    );
    proof {
        lemma_joins(start, p1, p2);
        lemma_joins(start, p1 + p2, p3);
        lemma_joins(start, p1 + p2 + p3, p4);
        lemma_joins(start, p1 + p2 + p3 + p4, p5);
        lemma_joins(start, p1 + p2 + p3 + p4 + p5, p6);
        assert(zone_problems(zone@, ends) == p1 + p2 + p3 + p4 + p5 + p6);
    }
    add_problem(
        errors,
        bad_policy,
        "parameters.restricted_zone.policy_id",
        "must contain 1 to 128 bytes",
    );
    add_problem(
        errors,
        bad_device,
        "parameters.restricted_zone.device_id",
        "must contain 1 to 128 bytes",
    );
    add_problem(
        errors,
        !inside,
        "parameters.restricted_zone.region",
        "region must be a finite, positive rectangle inside normalized image coordinates",
    );
    add_problem(
        errors,
        !fit,
        "parameters.restricted_zone.enter_motion_score",
        "enter_motion_score must be in [0,1] and greater than exit_motion_score",
    );
    add_problem(
        errors,
        !enter_ok,
        "parameters.restricted_zone.enter_after_frames",
        "must be between 1 and 300",
    );
    add_problem(
        errors,
        !exit_ok,
        "parameters.restricted_zone.exit_after_frames",
        "must be between 1 and 300",
    );
}

/// Refuses a request for a revision that cannot be. The compact text of its
/// schema has so many bytes.
pub fn validate_policy_request(
    request_id: &str,
    request: &CreatePolicyRequest,
    schema_bytes: usize,
    ends: RectEnds,
) -> (r: Option<Reply>)
    ensures
        ({
            let problems = request_problems(request@, schema_bytes as nat, ends);
            match r {
                Some(reply) => problems.len() > 0 && reply@ == invalid_view(
                    request_id@,
                    "invalid policy revision"@,
                    jsons_of::<FieldError>(problems),
                ),
                None => problems.len() == 0,
            }
        }),
{
    let ghost problems = request_problems(request@, schema_bytes as nat, ends);
    let mut errors: Vec<FieldError> = Vec::new();
    assert(views(errors@) =~= Seq::empty());
    let zone: Option<&RestrictedZoneParameters> = match &request.parameters {
        Some(p) => match &p.restricted_zone {
            Some(z) => Some(z),
            None => None,
        },
        None => None,
    };
    match &request.prompt {
        None => {
            add_problem(
                &mut errors,
                zone.is_none(),
                "prompt",
                "a prompt or restricted-zone parameters are required",
            );
        },
        Some(p) => {
            let blank = is_blank(p.as_str());
            add_problem(&mut errors, blank, "prompt", "prompt must not be empty");
            add_problem(
                &mut errors,
                !blank && p.as_str().as_bytes().len() > 32768,
                "prompt",
                "prompt must be at most 32768 bytes",
            );
        },
    }
    assert(views(errors@) =~= prompt_problems(request@));
    match &request.output_schema {
        None => {},
        Some(s) => {
            let object = s.fields().is_some();
            add_problem(
                &mut errors,
                !object,
                "output_schema",
                "output_schema must be a JSON object",
            );
            add_problem(
                &mut errors,
                object && schema_bytes > 65536,
                "output_schema",
                "output_schema must be at most 65536 bytes",
            );
        },
    }
    assert(views(errors@) =~= prompt_problems(request@) + schema_problems(
        request@.output_schema,
        schema_bytes as nat,
    ));
    match zone {
        Some(z) => {
            validate_zone(z, ends, &mut errors);
        },
        None => {},
    }
    assert(views(errors@) =~= problems);
    if errors.len() > 0 {
        Some(validation_error(request_id, "invalid policy revision", &errors))
    } else {
        assert(problems.len() == 0);
        None
    }
}

/// A request with the schema that a text tells.
pub open spec fn with_schema(request: CreateView, schema: Option<Seq<char>>) -> CreateView {
    CreateView {
        output_schema: match schema {
            Some(s) => Some(data_of(read_json(s), s)),
            None => None,
        },
        ..request
    }
}

/// How many bytes a schema has as it is written.
pub open spec fn written_bytes(schema: Option<Seq<char>>) -> nat {
    match compact_of(schema) {
        Some(s) => encode_utf8(s).len(),
        None => 0,
    }
}

/// Takes up a request for a revision with the schema that a text tells, or
/// refuses it. The schema of `request` itself does not count.
pub fn read_policy_request(
    request_id: &str,
    request: CreatePolicyRequest,
    schema: &Option<String>,
    ends: RectEnds,
) -> (r: Result<CreatePolicyRequest, Reply>)
    ensures
        ({
            let whole = with_schema(request@, opt_text(*schema));
            let problems = request_problems(whole, written_bytes(opt_text(*schema)), ends);
            match r {
                Ok(p) => problems.len() == 0 && p@ == whole,
                Err(reply) => problems.len() > 0 && reply@ == invalid_view(
                    request_id@,
                    "invalid policy revision"@,
                    jsons_of::<FieldError>(problems),
                ),
            }
        }),
{
    let (output_schema, schema_bytes): (Option<Json>, usize) = match schema {
        Some(s) => (Some(parse_data(s.as_str())), compact_text(s.as_str()).as_str().as_bytes().len()),
        None => (None, 0),
    };
    let whole = CreatePolicyRequest {
        parent_revision: request.parent_revision,
        prompt: request.prompt,
        output_schema,
        parameters: request.parameters,
    };
    match validate_policy_request(request_id, &whole, schema_bytes, ends) {
        Some(reply) => Err(reply),
        None => Ok(whole),
    }
}

// ----------------------------------------------------------- creation
/// The name of a revision, or of none.
pub open spec fn shown_revision(revision: Option<u64>) -> Seq<char> {
    match revision {
        Some(n) => decimal(n as nat),
        None => "none"@,
    }
}

/// The name of a revision, or of none.
pub fn display_revision(revision: Option<u64>) -> (r: String)
    ensures
        r@ == shown_revision(revision),
{
    match revision {
        Some(n) => to_decimal(n),
        None => owned("none"),
    }
}

/// The newest revision.
pub open spec fn newest(policies: Seq<RevisionView>) -> Option<u64> {
    if policies.len() == 0 {
        None
    } else {
        Some(policies.last().revision)
    }
}

/// The event that tells of a new revision.
pub open spec fn created_policy_payload(request: CreateView) -> JsonView {
    JsonView::Object(
        seq![
            ("parent_revision"@, number_or_null(request.parent_revision)),
            (
                "prompt"@,
                text_or_null(
                    match request.prompt {
                        Some(p) => Some(trimmed(p)),
                        None => None,
                    },
                ),
            ),
            ("output_schema"@, value_or_null(request.output_schema)),
            ("parameters"@, parameters_view(request.zone)),
        ],
    )
}

/// The reply to a request for a revision whose parent is not the newest one.
pub open spec fn stale_parent(
    request_id: Seq<char>,
    newest: Option<u64>,
    parent: Option<u64>,
) -> ReplyView {
    conflict_view(
        request_id,
        "policy parent is stale"@,
        seq![
            detail_view(
                "parent_revision"@,
                "expected "@ + shown_revision(newest) + ", received "@ + shown_revision(parent),
            ),
        ],
    )
}

/// The event that makes a revision, where its parent is the newest one.
pub fn create_policy(
    request_id: &str,
    request: &CreatePolicyRequest,
    revisions: &Vec<PolicyRevision>,
) -> (r: Result<EventAppend, Reply>)
    ensures
        match r {
            Ok(append) => request@.parent_revision == newest(views(revisions@)) && append@ == (
                POLICY_CREATED@,
                created_policy_payload(request@),
            ),
            Err(reply) => request@.parent_revision != newest(views(revisions@)) && reply@
                == stale_parent(
                request_id@,
                newest(views(revisions@)),
                request@.parent_revision,
            ),
        },
{
    let current: Option<u64> = if revisions.len() == 0 {
        None
    } else {
        assert(views(revisions@).last() == revisions@[revisions@.len() - 1]@);
        Some(revisions[revisions.len() - 1].revision)
    };
    let fits = match (request.parent_revision, current) {
        (Some(a), Some(b)) => a == b,
        (None, None) => true,
        _ => false,
    };
    if !fits {
        let mut problem = owned("expected ");
        problem.push_str(display_revision(current).as_str());
        problem.push_str(", received ");
        problem.push_str(display_revision(request.parent_revision).as_str());
        return Err(conflict_field(request_id, "policy parent is stale", "parent_revision", problem));
    }
    let mut o = Fields::new();
    o.put("parent_revision", Json::number_or_null(request.parent_revision));
    let prompt: Option<String> = match &request.prompt {
        Some(p) => Some(trim(p.as_str())),
        None => None,
    };
    o.put("prompt", Json::text_or_null(&prompt));
    o.put("output_schema", json_or_null(&request.output_schema));
    let parameters = match &request.parameters {
        Some(p) => parameters_json(p),
        None => parameters_json(&PolicyParameters::none()),
    };
    o.put("parameters", parameters);
    assert(o@ =~= created_policy_payload(request@)->Object_0);
    Ok(EventAppend { kind: POLICY_CREATED, payload: o.object() })
}

/// The reply that tells of one revision.
pub open spec fn policy_reply(
    request_id: Seq<char>,
    run_id: Seq<char>,
    policy: RevisionView,
) -> ReplyView {
    ok_view(
        JsonView::Object(
            seq![
                ("request_id"@, JsonView::Text(request_id)),
                ("run_id"@, JsonView::Text(run_id)),
                ("policy"@, revision_view(policy)),
            ],
        ),
    )
}

fn tell_policy(request_id: &str, run_id: &str, policy: &PolicyRevision) -> (r: Reply)
    ensures
        r@ == policy_reply(request_id@, run_id@, policy@),
{
    let mut o = Fields::new();
    o.put("request_id", Json::text(request_id));
    o.put("run_id", Json::text(run_id));
    o.put("policy", policy.to_json());
    assert(o@ =~= policy_reply(request_id@, run_id@, policy@).body->Object_0);
    ok(o.object())
}

/// The reply once a revision was made: the revision as the log now has it.
pub fn created_policy(
    request_id: &str,
    run_id: &str,
    revisions: &Vec<PolicyRevision>,
    revision: u64,
) -> (r: Reply)
    ensures
        r@ == match place_of(views(revisions@), revision) {
            Some(i) => policy_reply(request_id@, run_id@, views(revisions@)[i]),
            None => internal_view(request_id@),
        },
{
    match find_revision(revisions, revision) {
        Some(i) => tell_policy(request_id, run_id, &revisions[i]),
        None => internal_error(request_id),
    }
}

/// The reply that lists the revisions of a run.
pub fn list_policies(request_id: &str, run_id: &str, revisions: &Vec<PolicyRevision>) -> (r: Reply)
    ensures
        r@ == ok_view(
            JsonView::Object(
                seq![
                    ("request_id"@, JsonView::Text(request_id@)),
                    ("run_id"@, JsonView::Text(run_id@)),
                    (
                        "policies"@,
                        JsonView::Array(jsons_of::<PolicyRevision>(views(revisions@))),
                    ),
                ],
            ),
        ),
{
    let mut o = Fields::new();
    o.put("request_id", Json::text(request_id));
    o.put("run_id", Json::text(run_id));
    o.put("policies", list_of(revisions));
    assert(o@ =~= seq![
        ("request_id"@, JsonView::Text(request_id@)),
        ("run_id"@, JsonView::Text(run_id@)),
        ("policies"@, JsonView::Array(jsons_of::<PolicyRevision>(views(revisions@)))),
    ]);
    ok(o.object())
}

/// The reply on a revision that is not there.
pub open spec fn no_such_policy(request_id: Seq<char>, revision: u64) -> ReplyView {
    not_found_view(
        request_id,
        "policy revision not found"@,
        seq![detail_view("revision"@, decimal(revision as nat))],
    )
}

fn policy_not_found(request_id: &str, revision: u64) -> (r: Reply)
    ensures
        r@ == no_such_policy(request_id@, revision),
{
    missing_field(request_id, "policy revision not found", "revision", to_decimal(revision))
}

/// The reply that tells of one revision of a run.
pub fn get_policy(
    request_id: &str,
    run_id: &str,
    revisions: &Vec<PolicyRevision>,
    revision: u64,
) -> (r: Reply)
    ensures
        r@ == match place_of(views(revisions@), revision) {
            Some(i) => policy_reply(request_id@, run_id@, views(revisions@)[i]),
            None => no_such_policy(request_id@, revision),
        },
{
    match find_revision(revisions, revision) {
        Some(i) => tell_policy(request_id, run_id, &revisions[i]),
        None => policy_not_found(request_id, revision),
    }
}

// ----------------------------------------------------------- deployment
/// A status that a deployment can ask for.
pub open spec fn is_stage(stage: PolicyStatus) -> bool {
    stage == PolicyStatus::Shadow || stage == PolicyStatus::Canary || stage == PolicyStatus::Active
}

/// Refuses a deployment to what is no stage of deployment.
pub fn check_stage(request_id: &str, stage: PolicyStatus) -> (r: Option<Reply>)
    ensures
        match r {
            Some(reply) => !is_stage(stage) && reply@ == invalid_field_view(
                request_id@,
                "invalid policy deployment stage"@,
                "stage"@,
                "stage must be one of: shadow, canary, active"@,
            ),
            None => is_stage(stage),
        },
{
    match stage {
        PolicyStatus::Shadow | PolicyStatus::Canary | PolicyStatus::Active => None,
        _ => Some(
            invalid_field(
                request_id,
                "invalid policy deployment stage",
                "stage",
                owned("stage must be one of: shadow, canary, active"),
            ),
        ),
    }
}

/// The refusal of a deployment, where it is refused.
pub open spec fn activation_refusal(
    request_id: Seq<char>,
    policies: Seq<RevisionView>,
    revision: u64,
    stage: PolicyStatus,
) -> Option<ReplyView> {
    match place_of(policies, revision) {
        None => Some(no_such_policy(request_id, revision)),
        Some(i) => if may_move(policies[i].status, stage) {
            None
        } else {
            Some(
                conflict_view(
                    request_id,
                    "policy stage transition is not allowed"@,
                    seq![
                        detail_view(
                            "stage"@,
                            "cannot move revision "@ + decimal(revision as nat) + " from "@
                                + policies[i].status.name() + " to "@ + stage.name(),
                        ),
                    ],
                ),
            )
        },
    }
}

/// The event that a deployment was asked for.
pub open spec fn deploy_requested(
    revision: u64,
    from: PolicyStatus,
    to: PolicyStatus,
    expected_generation: Option<u64>,
) -> (Seq<char>, JsonView) {
    (
        POLICY_DEPLOY_REQUESTED@,
        JsonView::Object(
            seq![
                ("revision"@, number_view(revision)),
                ("from_status"@, JsonView::Text(from.name())),
                ("to_status"@, JsonView::Text(to.name())),
                ("expected_generation"@, number_or_null(expected_generation)),
            ],
        ),
    )
}

/// A change of policy that was asked for: the revision it is about, and the
/// event to write before it is carried out.
#[derive(Debug)]
pub struct Asked {
    pub at: usize,
    pub append: EventAppend,
}

/// The event that begins a deployment, and where its revision stands.
pub fn activate_policy(
    request_id: &str,
    revisions: &Vec<PolicyRevision>,
    revision: u64,
    stage: PolicyStatus,
    expected_generation: Option<u64>,
) -> (r: Result<Asked, Reply>)
    ensures
        ({
            let policies = views(revisions@);
            let refusal = activation_refusal(request_id@, policies, revision, stage);
            match r {
                Ok(asked) => refusal is None && place_of(policies, revision) == Some(
                    asked.at as int,
                ) && asked.at < revisions@.len() && asked.append@ == deploy_requested(
                    revision,
                    policies[asked.at as int].status,
                    stage,
                    expected_generation,
                ),
                Err(reply) => refusal == Some(reply@),
            }
        }),
{
    match find_revision(revisions, revision) {
        None => Err(policy_not_found(request_id, revision)),
        Some(at) => {
            let status = revisions[at].status;
            if !valid_promotion(status, stage) {
                let mut problem = owned("cannot move revision ");
                problem.push_str(to_decimal(revision).as_str());
                problem.push_str(" from ");
                problem.push_str(status.as_str());
                problem.push_str(" to ");
                problem.push_str(stage.as_str());
                return Err(
                    conflict_field(
                        request_id,
                        "policy stage transition is not allowed",
                        "stage",
                        problem,
                    ),
                );
            }
            let mut o = Fields::new();
            o.put("revision", Json::number(revision));
            o.put("from_status", Json::text(status.as_str()));
            o.put("to_status", Json::text(stage.as_str()));
            o.put("expected_generation", Json::number_or_null(expected_generation));
            assert(o@ =~= deploy_requested(
                revision,
                status,
                stage,
                expected_generation,
            ).1->Object_0);
            Ok(
                Asked {
                    at,
                    append: EventAppend { kind: POLICY_DEPLOY_REQUESTED, payload: o.object() },
                },
            )
        },
    }
}

/// The stream that a run is live on.
#[derive(Debug)]
pub struct LiveSession {
    pub session_id: String,
    pub generation: u64,
}

/// What the stream that a run is live on is.
pub ghost struct SessionView {
    pub session_id: Seq<char>,
    pub generation: u64,
}

impl View for LiveSession {
    type V = SessionView;

    open spec fn view(&self) -> SessionView {
        SessionView { session_id: self.session_id@, generation: self.generation }
    }
}

/// How a revision was applied.
#[derive(Debug)]
pub struct LiveApplication {
    pub session_id: Option<String>,
    pub generation: Option<u64>,
    pub prompt_acknowledged: bool,
    pub effective_on_current_generation: bool,
    pub deferred_fields: Vec<String>,
    pub note: &'static str,
}

/// How a revision was applied.
pub ghost struct ApplicationView {
    pub session_id: Option<Seq<char>>,
    pub generation: Option<u64>,
    pub prompt_acknowledged: bool,
    pub effective_on_current_generation: bool,
    pub deferred_fields: Seq<Seq<char>>,
    pub note: Seq<char>,
}

impl View for LiveApplication {
    type V = ApplicationView;

    open spec fn view(&self) -> ApplicationView {
        ApplicationView {
            session_id: opt_text(self.session_id),
            generation: self.generation,
            prompt_acknowledged: self.prompt_acknowledged,
            effective_on_current_generation: self.effective_on_current_generation,
            deferred_fields: texts(self.deferred_fields@),
            note: self.note@,
        }
    }
}

/// The way a revision was applied, as JSON.
pub open spec fn application_view(a: ApplicationView) -> JsonView {
    JsonView::Object(
        seq![
            ("session_id"@, text_or_null(a.session_id)),
            ("generation"@, number_or_null(a.generation)),
            ("prompt_acknowledged"@, JsonView::Bool(a.prompt_acknowledged)),
            ("effective_on_current_generation"@, JsonView::Bool(a.effective_on_current_generation)),
            ("deferred_fields"@, JsonView::Array(text_views(a.deferred_fields))),
            ("note"@, JsonView::Text(a.note)),
        ],
    )
}

fn application_json(a: &LiveApplication) -> (r: Json)
    ensures
        r@ == application_view(a@),
{
    let mut o = Fields::new();
    o.put("session_id", Json::text_or_null(&a.session_id));
    o.put("generation", Json::number_or_null(a.generation));
    o.put("prompt_acknowledged", Json::Bool(a.prompt_acknowledged));
    o.put("effective_on_current_generation", Json::Bool(a.effective_on_current_generation));
    o.put("deferred_fields", Json::text_list(&a.deferred_fields));
    o.put("note", Json::text(a.note));
    assert(o@ =~= application_view(a@)->Object_0);
    o.object()
}

/// Why a revision could not be applied.
#[derive(Debug)]
pub enum DeploymentError {
    ExpectedGenerationRequired,
    StaleGeneration { expected: u64, current: u64 },
    GenerationClosed(String),
    AcknowledgementTimeout,
}

/// Why a revision could not be applied.
pub ghost enum DeploymentErrorView {
    ExpectedGenerationRequired,
    StaleGeneration { expected: u64, current: u64 },
    GenerationClosed(Seq<char>),
    AcknowledgementTimeout,
}

impl View for DeploymentError {
    type V = DeploymentErrorView;

    open spec fn view(&self) -> DeploymentErrorView {
        match self {
            DeploymentError::ExpectedGenerationRequired =>
                DeploymentErrorView::ExpectedGenerationRequired,
            DeploymentError::StaleGeneration { expected, current } =>
                DeploymentErrorView::StaleGeneration { expected: *expected, current: *current },
            DeploymentError::GenerationClosed(message) => DeploymentErrorView::GenerationClosed(
                message@,
            ),
            DeploymentError::AcknowledgementTimeout => DeploymentErrorView::AcknowledgementTimeout,
        }
    }
}

/// The reason as the log keeps it.
pub open spec fn reason_of(e: DeploymentErrorView) -> Seq<char> {
    match e {
        DeploymentErrorView::ExpectedGenerationRequired => "expected_generation_required"@,
        DeploymentErrorView::StaleGeneration { expected, current } => "stale_generation: expected "@
            + decimal(expected as nat) + ", current "@ + decimal(current as nat),
        DeploymentErrorView::GenerationClosed(message) => "generation_closed: "@ + message,
        DeploymentErrorView::AcknowledgementTimeout => "acknowledgement_timeout"@,
    }
}

/// The reply to a request whose revision could not be applied.
pub open spec fn deployment_refusal(request_id: Seq<char>, e: DeploymentErrorView) -> ReplyView {
    match e {
        DeploymentErrorView::ExpectedGenerationRequired => conflict_view(
            request_id,
            "live policy activation requires expected_generation"@,
            seq![
                detail_view(
                    "expected_generation"@,
                    "read the live generation and retry with that exact value"@,
                ),
            ],
        ),
        DeploymentErrorView::StaleGeneration { expected, current } => conflict_view(
            request_id,
            "policy command targeted a stale generation"@,
            seq![
                detail_view(
                    "expected_generation"@,
                    "expected generation "@ + decimal(expected as nat)
                        + ", current generation is "@ + decimal(current as nat),
                ),
            ],
        ),
        DeploymentErrorView::GenerationClosed(message) => conflict_view(
            request_id,
            "pipeline generation rejected policy command"@,
            seq![detail_view("expected_generation"@, message)],
        ),
        DeploymentErrorView::AcknowledgementTimeout => ReplyView {
            status: 503,
            body: error_view(
                "policy_acknowledgement_timeout"@,
                "the live generation did not acknowledge the policy command within two seconds"@,
                request_id,
                Seq::empty(),
            ),
        },
    }
}

impl DeploymentError {
    /// The reason as the log keeps it.
    pub fn reason(&self) -> (r: String)
        ensures
            r@ == reason_of(self@),
    {
        match self {
            DeploymentError::ExpectedGenerationRequired => owned("expected_generation_required"),
            DeploymentError::StaleGeneration { expected, current } => {
                let mut out = owned("stale_generation: expected ");
                out.push_str(to_decimal(*expected).as_str());
                out.push_str(", current ");
                out.push_str(to_decimal(*current).as_str());
                out
            },
            DeploymentError::GenerationClosed(message) => {
                let mut out = owned("generation_closed: ");
                out.push_str(message.as_str());
                out
            },
            DeploymentError::AcknowledgementTimeout => owned("acknowledgement_timeout"),
        }
    }

    /// The reply to a request whose revision could not be applied.
    pub fn into_response(self, request_id: &str) -> (r: Reply)
        ensures
            r@ == deployment_refusal(request_id@, self@),
    {
        match self {
            DeploymentError::ExpectedGenerationRequired => conflict_field(
                request_id,
                "live policy activation requires expected_generation",
                "expected_generation",
                owned("read the live generation and retry with that exact value"),
            ),
            DeploymentError::StaleGeneration { expected, current } => {
                let mut problem = owned("expected generation ");
                problem.push_str(to_decimal(expected).as_str());
                problem.push_str(", current generation is ");
                problem.push_str(to_decimal(current).as_str());
                conflict_field(
                    request_id,
                    "policy command targeted a stale generation",
                    "expected_generation",
                    problem,
                )
            },
            DeploymentError::GenerationClosed(message) => conflict_field(
                request_id,
                "pipeline generation rejected policy command",
                "expected_generation",
                message,
            ),
            DeploymentError::AcknowledgementTimeout => {
                let none: Vec<FieldError> = Vec::new();
                assert(detail_views(none@) =~= Seq::empty());
                structured_error(
                    request_id,
                    503,
                    "policy_acknowledgement_timeout",
                    "the live generation did not acknowledge the policy command within two seconds",
                    &none,
                )
            },
        }
    }
}

/// The fields of a revision that only a new generation takes up.
pub open spec fn deferred_of(p: RevisionView) -> Seq<Seq<char>> {
    if p.zone is Some {
        seq!["parameters.restricted_zone"@]
    } else {
        Seq::empty()
    }
}

fn deferred_fields(policy: &PolicyRevision) -> (r: Vec<String>)
    ensures
        texts(r@) == deferred_of(policy@),
{
    let mut out: Vec<String> = Vec::new();
    if policy.parameters.restricted_zone.is_some() {
        out.push(owned("parameters.restricted_zone"));
    }
    assert(texts(out@) =~= deferred_of(policy@));
    out
}

/// What comes of applying a revision before anything is sent.
#[derive(Debug)]
pub enum ApplyStep {
    /// It is applied, as far as it is.
    Done(LiveApplication),
    /// It is not applied.
    Refused(DeploymentError),
    /// The prompt, and the schema where there is one, are sent to the stream.
    Send { prompt: String, output_schema: Option<Json> },
}

/// What comes of applying a revision before anything is sent.
pub ghost enum ApplyStepView {
    Done(ApplicationView),
    Refused(DeploymentErrorView),
    Send(Seq<char>, Option<JsonView>),
}

impl View for ApplyStep {
    type V = ApplyStepView;

    open spec fn view(&self) -> ApplyStepView {
        match self {
            ApplyStep::Done(a) => ApplyStepView::Done(a@),
            ApplyStep::Refused(e) => ApplyStepView::Refused(e@),
            ApplyStep::Send { prompt, output_schema } => ApplyStepView::Send(
                prompt@,
                opt_json(*output_schema),
            ),
        }
    }
}

/// A revision that a live stream took up as far as it could.
pub open spec fn taken_up(
    p: RevisionView,
    session: SessionView,
    prompt_acknowledged: bool,
) -> ApplicationView {
    let effective = prompt_acknowledged && p.zone is None;
    ApplicationView {
        session_id: Some(session.session_id),
        generation: Some(session.generation),
        prompt_acknowledged,
        effective_on_current_generation: effective,
        deferred_fields: deferred_of(p),
        note: if effective {
            "live generation acknowledged the complete policy"@
        } else {
            "prompt was acknowledged; static detector parameters require a new generation"@
        },
    }
}

/// What comes of applying a revision before anything is sent.
pub open spec fn first_step(
    p: RevisionView,
    session: Option<SessionView>,
    apply_live: bool,
    expected_generation: Option<u64>,
) -> ApplyStepView {
    match session {
        None => ApplyStepView::Done(
            ApplicationView {
                session_id: None,
                generation: None,
                prompt_acknowledged: false,
                effective_on_current_generation: false,
                deferred_fields: deferred_of(p),
                note: "stored durably; applies when a new pipeline generation starts"@,
            },
        ),
        Some(s) => if !apply_live {
            ApplyStepView::Done(
                ApplicationView {
                    session_id: Some(s.session_id),
                    generation: Some(s.generation),
                    prompt_acknowledged: false,
                    effective_on_current_generation: false,
                    deferred_fields: deferred_of(p),
                    note: "shadow and canary stages are replay-only in this release"@,
                },
            )
        } else {
            match expected_generation {
                None => ApplyStepView::Refused(DeploymentErrorView::ExpectedGenerationRequired),
                Some(expected) => if expected != s.generation {
                    ApplyStepView::Refused(
                        DeploymentErrorView::StaleGeneration { expected, current: s.generation },
                    )
                } else {
                    match p.prompt {
                        Some(prompt) => ApplyStepView::Send(prompt, p.output_schema),
                        None => ApplyStepView::Done(taken_up(p, s, false)),
                    }
                },
            }
        },
    }
}

/// What the stream that a run is live on is, where there is one.
pub open spec fn opt_session(s: Option<LiveSession>) -> Option<SessionView> {
    match s {
        Some(v) => Some(v@),
        None => None,
    }
}

/// Applies a revision as far as that goes without the stream.
pub fn apply_policy(
    policy: &PolicyRevision,
    session: &Option<LiveSession>,
    apply_live: bool,
    expected_generation: Option<u64>,
) -> (r: ApplyStep)
    ensures
        r@ == first_step(policy@, opt_session(*session), apply_live, expected_generation),
{
    match session {
        None => ApplyStep::Done(
            LiveApplication {
                session_id: None,
                generation: None,
                prompt_acknowledged: false,
                effective_on_current_generation: false,
                deferred_fields: deferred_fields(policy),
                note: "stored durably; applies when a new pipeline generation starts",
            },
        ),
        Some(s) => {
            if !apply_live {
                return ApplyStep::Done(
                    LiveApplication {
                        session_id: Some(owned(s.session_id.as_str())),
                        generation: Some(s.generation),
                        prompt_acknowledged: false,
                        effective_on_current_generation: false,
                        deferred_fields: deferred_fields(policy),
                        note: "shadow and canary stages are replay-only in this release",
                    },
                );
            }
            match expected_generation {
                None => ApplyStep::Refused(DeploymentError::ExpectedGenerationRequired),
                Some(expected) => {
                    if expected != s.generation {
                        return ApplyStep::Refused(
                            DeploymentError::StaleGeneration { expected, current: s.generation },
                        );
                    }
                    match &policy.prompt {
                        Some(prompt) => ApplyStep::Send {
                            prompt: owned(prompt.as_str()),
                            output_schema: copied(&policy.output_schema),
                        },
                        None => ApplyStep::Done(take_up(policy, s, false)),
                    }
                },
            }
        },
    }
}

fn copied(v: &Option<Json>) -> (r: Option<Json>)
    ensures
        opt_json(r) == opt_json(*v),
{
    match v {
        Some(j) => Some(j.copy()),
        None => None,
    }
}

fn take_up(policy: &PolicyRevision, session: &LiveSession, prompt_acknowledged: bool) -> (r:
    LiveApplication)
    ensures
        r@ == taken_up(policy@, session@, prompt_acknowledged),
{
    let deferred = deferred_fields(policy);
    let effective = prompt_acknowledged && policy.parameters.restricted_zone.is_none();
    LiveApplication {
        session_id: Some(owned(session.session_id.as_str())),
        generation: Some(session.generation),
        prompt_acknowledged,
        effective_on_current_generation: effective,
        deferred_fields: deferred,
        note: if effective {
            "live generation acknowledged the complete policy"
        } else {
            "prompt was acknowledged; static detector parameters require a new generation"
        },
    }
}

/// What a stream made of a prompt that was sent to it.
#[derive(Debug)]
pub enum SendOutcome {
    Acknowledged,
    Closed(String),
    TimedOut,
}

/// The way a revision was applied, from what the stream made of its prompt.
pub fn finish_apply(
    policy: &PolicyRevision,
    session: &LiveSession,
    outcome: SendOutcome,
) -> (r: Result<LiveApplication, DeploymentError>)
    ensures
        match outcome {
            SendOutcome::Acknowledged => r is Ok && r->Ok_0@ == taken_up(policy@, session@, true),
            SendOutcome::Closed(message) => r is Err && r->Err_0@
                == DeploymentErrorView::GenerationClosed(message@),
            SendOutcome::TimedOut => r is Err && r->Err_0@
                == DeploymentErrorView::AcknowledgementTimeout,
        },
{
    match outcome {
        SendOutcome::Acknowledged => Ok(take_up(policy, session, true)),
        SendOutcome::Closed(message) => Err(DeploymentError::GenerationClosed(message)),
        SendOutcome::TimedOut => Err(DeploymentError::AcknowledgementTimeout),
    }
}

/// The event that a deployment was turned down.
pub open spec fn deploy_rejected(
    revision: u64,
    request_seq: u64,
    stage: PolicyStatus,
    e: DeploymentErrorView,
) -> (Seq<char>, JsonView) {
    (
        POLICY_DEPLOY_REJECTED@,
        JsonView::Object(
            seq![
                ("revision"@, number_view(revision)),
                ("request_seq"@, number_view(request_seq)),
                ("to_status"@, JsonView::Text(stage.name())),
                ("reason"@, JsonView::Text(reason_of(e))),
            ],
        ),
    )
}

/// The event that a deployment was turned down.
pub fn reject_activation(
    revision: u64,
    request_seq: u64,
    stage: PolicyStatus,
    error: &DeploymentError,
) -> (r: EventAppend)
    ensures
        r@ == deploy_rejected(revision, request_seq, stage, error@),
{
    let mut o = Fields::new();
    o.put("revision", Json::number(revision));
    o.put("request_seq", Json::number(request_seq));
    o.put("to_status", Json::text(stage.as_str()));
    o.put("reason", Json::text(error.reason().as_str()));
    assert(o@ =~= deploy_rejected(revision, request_seq, stage, error@).1->Object_0);
    EventAppend { kind: POLICY_DEPLOY_REJECTED, payload: o.object() }
}

/// The event that a deployment was carried out.
pub open spec fn deploy_acknowledged(
    revision: u64,
    request_seq: u64,
    stage: PolicyStatus,
    application: ApplicationView,
) -> (Seq<char>, JsonView) {
    (
        POLICY_DEPLOY_ACKNOWLEDGED@,
        JsonView::Object(
            seq![
                ("revision"@, number_view(revision)),
                ("request_seq"@, number_view(request_seq)),
                ("status"@, JsonView::Text(stage.name())),
                ("application"@, application_view(application)),
            ],
        ),
    )
}

/// The event that a deployment was carried out.
pub fn acknowledge_activation(
    revision: u64,
    request_seq: u64,
    stage: PolicyStatus,
    application: &LiveApplication,
) -> (r: EventAppend)
    ensures
        r@ == deploy_acknowledged(revision, request_seq, stage, application@),
{
    let mut o = Fields::new();
    o.put("revision", Json::number(revision));
    o.put("request_seq", Json::number(request_seq));
    o.put("status", Json::text(stage.as_str()));
    o.put("application", application_json(application));
    assert(o@ =~= deploy_acknowledged(revision, request_seq, stage, application@).1->Object_0);
    EventAppend { kind: POLICY_DEPLOY_ACKNOWLEDGED, payload: o.object() }
}

/// The reply once a change of policy was carried out.
pub fn policy_response_after_transition(
    request_id: &str,
    run_id: &str,
    revisions: &Vec<PolicyRevision>,
    revision: u64,
    application: &LiveApplication,
) -> (r: Reply)
    ensures
        r@ == match place_of(views(revisions@), revision) {
            Some(i) => ok_view(
                JsonView::Object(
                    seq![
                        ("request_id"@, JsonView::Text(request_id@)),
                        ("run_id"@, JsonView::Text(run_id@)),
                        ("policy"@, revision_view(views(revisions@)[i])),
                        ("application"@, application_view(application@)),
                    ],
                ),
            ),
            None => internal_view(request_id@),
        },
{
    match find_revision(revisions, revision) {
        Some(i) => {
            let mut o = Fields::new();
            o.put("request_id", Json::text(request_id));
            o.put("run_id", Json::text(run_id));
            o.put("policy", revisions[i].to_json());
            o.put("application", application_json(application));
            assert(o@ =~= seq![
                ("request_id"@, JsonView::Text(request_id@)),
                ("run_id"@, JsonView::Text(run_id@)),
                ("policy"@, revision_view(views(revisions@)[i as int])),
                ("application"@, application_view(application@)),
            ]);
            ok(o.object())
        },
        None => internal_error(request_id),
    }
}

// ----------------------------------------------------------- rollback
/// Where the first active revision stands.
pub open spec fn active_place(policies: Seq<RevisionView>) -> Option<int>
    decreases policies.len(),
{
    if policies.len() == 0 {
        None
    } else {
        match active_place(policies.drop_last()) {
            Some(i) => Some(i),
            None => if policies.last().status == PolicyStatus::Active {
                Some(policies.len() - 1)
            } else {
                None
            },
        }
    }
}

proof fn lemma_active_stays(policies: Seq<RevisionView>, n: int)
    requires
        0 <= n <= policies.len(),
        active_place(policies.take(n)) is Some,
    ensures
        active_place(policies) == active_place(policies.take(n)),
    decreases policies.len() - n,
{
    if n < policies.len() {
        assert(policies.take(n + 1).drop_last() =~= policies.take(n));
        lemma_active_stays(policies, n + 1);
    } else {
        assert(policies.take(n) =~= policies);
    }
}

fn find_active(policies: &Vec<PolicyRevision>) -> (r: Option<usize>)
    ensures
        match r {
            Some(i) => i < policies@.len() && active_place(views(policies@)) == Some(i as int),
            None => active_place(views(policies@)) is None,
        },
{
    let ghost all = views(policies@);
    let mut i: usize = 0;
    assert(all.take(0) =~= Seq::empty());
    while i < policies.len()
        invariant
            all == views(policies@),
            i <= policies@.len(),
            active_place(all.take(i as int)) is None,
        decreases policies@.len() - i,
    {
        assert(all.take(i + 1).drop_last() =~= all.take(i as int));
        assert(all.take(i + 1).last() == policies@[i as int]@);
        if policies[i].status == PolicyStatus::Active {
            proof {
                lemma_active_stays(all, i + 1);
            }
            return Some(i);
        }
        i += 1;
    }
    assert(all.take(i as int) =~= all);
    None
}

/// The refusal of a return to a revision, where it is refused.
pub open spec fn rollback_refusal(
    request_id: Seq<char>,
    policies: Seq<RevisionView>,
    revision: u64,
) -> Option<ReplyView> {
    match (place_of(policies, revision), active_place(policies)) {
        (None, _) => Some(no_such_policy(request_id, revision)),
        (Some(_), None) => Some(
            conflict_view(
                request_id,
                "no active policy exists to roll back"@,
                seq![
                    detail_view("revision"@, "activate a policy before requesting rollback"@),
                ],
            ),
        ),
        (Some(i), Some(k)) => if policies[k].revision == revision {
            Some(
                conflict_view(
                    request_id,
                    "rollback target is already active"@,
                    seq![
                        detail_view(
                            "revision"@,
                            "revision "@ + decimal(revision as nat) + " is already active"@,
                        ),
                    ],
                ),
            )
        } else if policies[i].status != PolicyStatus::Retired && policies[i].status
            != PolicyStatus::RolledBack {
            Some(
                conflict_view(
                    request_id,
                    "rollback target was never an active policy"@,
                    seq![
                        detail_view(
                            "revision"@,
                            "revision "@ + decimal(revision as nat) + " has status "@
                                + policies[i].status.name(),
                        ),
                    ],
                ),
            )
        } else {
            None
        },
    }
}

/// The event that a return to a revision was asked for.
pub open spec fn rollback_requested(
    revision: u64,
    from_revision: u64,
    expected_generation: Option<u64>,
) -> (Seq<char>, JsonView) {
    (
        POLICY_ROLLBACK_REQUESTED@,
        JsonView::Object(
            seq![
                ("revision"@, number_view(revision)),
                ("from_revision"@, number_view(from_revision)),
                ("expected_generation"@, number_or_null(expected_generation)),
            ],
        ),
    )
}

/// A return to a revision that was asked for: the revision it is about, the
/// one that is active, and the event to write before it is carried out.
#[derive(Debug)]
pub struct AskedBack {
    pub at: usize,
    pub from_revision: u64,
    pub append: EventAppend,
}

/// The event that begins a return to a revision, and where that stands.
pub fn rollback_policy(
    request_id: &str,
    revisions: &Vec<PolicyRevision>,
    revision: u64,
    expected_generation: Option<u64>,
) -> (r: Result<AskedBack, Reply>)
    ensures
        ({
            let policies = views(revisions@);
            let refusal = rollback_refusal(request_id@, policies, revision);
            match r {
                Ok(asked) => refusal is None && place_of(policies, revision) == Some(
                    asked.at as int,
                ) && asked.at < revisions@.len() && asked.from_revision == policies[active_place(
                    policies,
                )->0].revision && asked.append@ == rollback_requested(
                    revision,
                    asked.from_revision,
                    expected_generation,
                ),
                Err(reply) => refusal == Some(reply@),
            }
        }),
{
    let at: usize = match find_revision(revisions, revision) {
        None => {
            return Err(policy_not_found(request_id, revision));
        },
        Some(at) => at,
    };
    let from_revision: u64 = match find_active(revisions) {
        None => {
            return Err(
                conflict_field(
                    request_id,
                    "no active policy exists to roll back",
                    "revision",
                    owned("activate a policy before requesting rollback"),
                ),
            );
        },
        Some(k) => revisions[k].revision,
    };
    if from_revision == revision {
        let mut problem = owned("revision ");
        problem.push_str(to_decimal(revision).as_str());
        problem.push_str(" is already active");
        return Err(
            conflict_field(request_id, "rollback target is already active", "revision", problem),
        );
    }
    let status = revisions[at].status;
    if status != PolicyStatus::Retired && status != PolicyStatus::RolledBack {
        let mut problem = owned("revision ");
        problem.push_str(to_decimal(revision).as_str());
        problem.push_str(" has status ");
        problem.push_str(status.as_str());
        return Err(
            conflict_field(
                request_id,
                "rollback target was never an active policy",
                "revision",
                problem,
            ),
        );
    }
    let mut o = Fields::new();
    o.put("revision", Json::number(revision));
    o.put("from_revision", Json::number(from_revision));
    o.put("expected_generation", Json::number_or_null(expected_generation));
    assert(o@ =~= rollback_requested(revision, from_revision, expected_generation).1->Object_0);
    Ok(
        AskedBack {
            at,
            from_revision,
            append: EventAppend { kind: POLICY_ROLLBACK_REQUESTED, payload: o.object() },
        },
    )
}

/// The event that a return to a revision was turned down.
pub open spec fn rollback_rejected(
    revision: u64,
    from_revision: u64,
    request_seq: u64,
    e: DeploymentErrorView,
) -> (Seq<char>, JsonView) {
    (
        POLICY_ROLLBACK_REJECTED@,
        JsonView::Object(
            seq![
                ("revision"@, number_view(revision)),
                ("from_revision"@, number_view(from_revision)),
                ("request_seq"@, number_view(request_seq)),
                ("reason"@, JsonView::Text(reason_of(e))),
            ],
        ),
    )
}

/// The event that a return to a revision was turned down.
pub fn reject_rollback(
    revision: u64,
    from_revision: u64,
    request_seq: u64,
    error: &DeploymentError,
) -> (r: EventAppend)
    ensures
        r@ == rollback_rejected(revision, from_revision, request_seq, error@),
{
    let mut o = Fields::new();
    o.put("revision", Json::number(revision));
    o.put("from_revision", Json::number(from_revision));
    o.put("request_seq", Json::number(request_seq));
    o.put("reason", Json::text(error.reason().as_str()));
    assert(o@ =~= rollback_rejected(revision, from_revision, request_seq, error@).1->Object_0);
    EventAppend { kind: POLICY_ROLLBACK_REJECTED, payload: o.object() }
}

/// The event that a return to a revision was carried out.
pub open spec fn rollback_acknowledged(
    revision: u64,
    from_revision: u64,
    request_seq: u64,
    application: ApplicationView,
) -> (Seq<char>, JsonView) {
    (
        POLICY_ROLLBACK_ACKNOWLEDGED@,
        JsonView::Object(
            seq![
                ("revision"@, number_view(revision)),
                ("from_revision"@, number_view(from_revision)),
                ("request_seq"@, number_view(request_seq)),
                ("status"@, JsonView::Text(PolicyStatus::Active.name())),
                ("application"@, application_view(application)),
            ],
        ),
    )
}

/// The event that a return to a revision was carried out.
pub fn acknowledge_rollback(
    revision: u64,
    from_revision: u64,
    request_seq: u64,
    application: &LiveApplication,
) -> (r: EventAppend)
    ensures
        r@ == rollback_acknowledged(revision, from_revision, request_seq, application@),
{
    let mut o = Fields::new();
    o.put("revision", Json::number(revision));
    o.put("from_revision", Json::number(from_revision));
    o.put("request_seq", Json::number(request_seq));
    o.put("status", Json::text(PolicyStatus::Active.as_str()));
    o.put("application", application_json(application));
    assert(o@ =~= rollback_acknowledged(
        revision,
        from_revision,
        request_seq,
        application@,
    ).1->Object_0);
    EventAppend { kind: POLICY_ROLLBACK_ACKNOWLEDGED, payload: o.object() }
}

// ----------------------------------------------------------- replay
/// A request to hold a revision against the log.
#[derive(Clone, Copy, Debug, PartialEq, Eq, Structural)]
pub struct ReplayPolicyRequest {
    pub from_seq: Option<u64>,
    pub to_seq: Option<u64>,
}

/// The first event that a request is about.
pub open spec fn first_seq(request: ReplayPolicyRequest) -> u64 {
    match request.from_seq {
        Some(n) => n,
        None => 0,
    }
}

/// A request is about some range of events.
pub open spec fn has_range(request: ReplayPolicyRequest) -> bool {
    match request.to_seq {
        Some(to) => to >= first_seq(request),
        None => true,
    }
}

fn start_of(request: &ReplayPolicyRequest) -> (r: u64)
    ensures
        r == first_seq(*request),
{
    match request.from_seq {
        Some(n) => n,
        None => 0,
    }
}

/// Refuses a request that is about no range of events.
pub fn check_replay(request_id: &str, request: &ReplayPolicyRequest) -> (r: Option<Reply>)
    ensures
        match r {
            Some(reply) => !has_range(*request) && reply@ == invalid_field_view(
                request_id@,
                "invalid replay range"@,
                "to_seq"@,
                "to_seq must be greater than or equal to from_seq"@,
            ),
            None => has_range(*request),
        },
{
    match request.to_seq {
        Some(to) => if to < start_of(request) {
            return Some(
                invalid_field(
                    request_id,
                    "invalid replay range",
                    "to_seq",
                    owned("to_seq must be greater than or equal to from_seq"),
                ),
            );
        },
        None => {},
    }
    None
}

/// What came of holding a revision against the log.
#[derive(Debug)]
pub struct ReplayEvaluation {
    pub revision: u64,
    pub source: &'static str,
    pub comparison: &'static str,
    pub from_seq: u64,
    pub to_seq: Option<u64>,
    pub candidate_events: u64,
    pub accepted_events: u64,
    pub rejected_events: u64,
    pub events_without_score: u64,
    pub threshold: Option<Single>,
    pub limitation: &'static str,
}

/// How the events that a revision is about compare with it.
pub ghost struct ReplayCounts {
    pub candidates: nat,
    pub accepted: nat,
    pub rejected: nat,
    pub without_score: nat,
}

/// What came of holding a revision against the log.
pub ghost struct EvaluationView {
    pub revision: u64,
    pub from_seq: u64,
    pub to_seq: Option<u64>,
    pub counts: ReplayCounts,
    pub threshold: Option<Single>,
}

impl View for ReplayEvaluation {
    type V = EvaluationView;

    open spec fn view(&self) -> EvaluationView {
        EvaluationView {
            revision: self.revision,
            from_seq: self.from_seq,
            to_seq: self.to_seq,
            counts: ReplayCounts {
                candidates: self.candidate_events as nat,
                accepted: self.accepted_events as nat,
                rejected: self.rejected_events as nat,
                without_score: self.events_without_score as nat,
            },
            threshold: self.threshold,
        }
    }
}

/// How the comparison is described.
pub const REPLAY_COMPARISON: &'static str =
    "persisted restricted_zone_activity_entered confidence against enter_motion_score";

/// What the comparison cannot do.
pub const REPLAY_LIMITATION: &'static str =
    "replay evaluates persisted candidates only; it cannot discover events that the original pipeline did not emit";

impl ReplayEvaluation {
    /// The texts that go with every evaluation.
    pub open spec fn is_labelled(&self) -> bool {
        &&& self.source@ == "local_wal"@
        &&& self.comparison@ == REPLAY_COMPARISON@
        &&& self.limitation@ == REPLAY_LIMITATION@
    }
}

/// The score that an event tells of.
pub open spec fn score_of(payload: JsonView) -> Option<crate::ieee::Double> {
    match payload.double_at("confidence"@) {
        Some(d) => Some(d),
        None => match payload.get("assertion"@) {
            Some(a) => match a.get("trigger"@) {
                Some(t) => t.double_at("score"@),
                None => None,
            },
            None => None,
        },
    }
}

/// An event is one that a request is about.
pub open spec fn is_candidate(event: EventView, request: ReplayPolicyRequest) -> bool {
    &&& event.kind == RESTRICTED_ZONE_EVENT@
    &&& event.seq >= first_seq(request)
    &&& match request.to_seq {
        Some(to) => event.seq <= to,
        None => true,
    }
}

/// The counts with one more event that a request is about.
pub open spec fn counted(
    c: ReplayCounts,
    payload: JsonView,
    threshold: Option<Single>,
) -> ReplayCounts {
    match (score_of(payload), threshold) {
        (Some(score), Some(t)) => if t.widened().le(score) {
            ReplayCounts { candidates: c.candidates + 1, accepted: c.accepted + 1, ..c }
        } else {
            ReplayCounts { candidates: c.candidates + 1, rejected: c.rejected + 1, ..c }
        },
        _ => ReplayCounts {
            candidates: c.candidates + 1,
            without_score: c.without_score + 1,
            ..c
        },
    }
}

/// How some events compare with a revision.
pub open spec fn replay_counts(
    events: Seq<EventView>,
    payloads: Seq<JsonView>,
    request: ReplayPolicyRequest,
    threshold: Option<Single>,
) -> ReplayCounts
    decreases events.len(),
{
    if events.len() == 0 {
        ReplayCounts { candidates: 0, accepted: 0, rejected: 0, without_score: 0 }
    } else {
        let before = replay_counts(events.drop_last(), payloads, request, threshold);
        if is_candidate(events.last(), request) {
            counted(before, payloads[events.len() - 1], threshold)
        } else {
            before
        }
    }
}

/// The score from which on a revision counts an event.
pub open spec fn threshold_of(p: RevisionView) -> Option<Single> {
    match p.zone {
        Some(z) => Some(z.enter_motion_score),
        None => None,
    }
}

/// What comes of holding a revision against the log.
pub open spec fn evaluated(
    p: RevisionView,
    events: Seq<EventView>,
    payloads: Seq<JsonView>,
    request: ReplayPolicyRequest,
) -> EvaluationView {
    EvaluationView {
        revision: p.revision,
        from_seq: first_seq(request),
        to_seq: request.to_seq,
        counts: replay_counts(events, payloads, request, threshold_of(p)),
        threshold: threshold_of(p),
    }
}

fn read_score(payload: &Json) -> (r: Option<crate::ieee::Double>)
    ensures
        r == score_of(payload@),
{
    match payload.double_at("confidence") {
        Some(d) => Some(d),
        None => match payload.get("assertion") {
            Some(a) => match a.get("trigger") {
                Some(t) => t.double_at("score"),
                None => None,
            },
            None => None,
        },
    }
}

/// Each event that a request is about is accepted, rejected or without a score.
pub proof fn replay_counts_add_up(
    events: Seq<EventView>,
    payloads: Seq<JsonView>,
    request: ReplayPolicyRequest,
    threshold: Option<Single>,
)
    ensures
        ({
            let c = replay_counts(events, payloads, request, threshold);
            c.accepted + c.rejected + c.without_score == c.candidates && c.candidates
                <= events.len()
        }),
    decreases events.len(),
{
    if events.len() > 0 {
        replay_counts_add_up(events.drop_last(), payloads, request, threshold);
    }
}

spec fn scored_at(
    events: Seq<EventView>,
    payloads: Seq<JsonView>,
    request: ReplayPolicyRequest,
    t: Single,
    reaches: bool,
) -> spec_fn(int) -> bool {
    |i: int|
        is_candidate(events[i], request) && score_of(payloads[i]) is Some && t.widened().le(
            score_of(payloads[i])->0,
        ) == reaches
}

proof fn lemma_counts(
    events: Seq<EventView>,
    payloads: Seq<JsonView>,
    request: ReplayPolicyRequest,
    threshold: Option<Single>,
    k: int,
)
    requires
        0 <= k <= events.len(),
    ensures
        ({
            let c = replay_counts(events.take(k), payloads, request, threshold);
            &&& c.candidates == places(k as nat, |i: int| is_candidate(events[i], request)).len()
            &&& match threshold {
                Some(t) => c.accepted == places(
                    k as nat,
                    scored_at(events, payloads, request, t, true),
                ).len() && c.rejected == places(
                    k as nat,
                    scored_at(events, payloads, request, t, false),
                ).len(),
                None => c.accepted == 0 && c.rejected == 0,
            }
        }),
    decreases k,
{
    let asked = |i: int| is_candidate(events[i], request);
    if k == 0 {
        no_place_below_zero(asked);
        if let Some(t) = threshold {
            no_place_below_zero(scored_at(events, payloads, request, t, true));
            no_place_below_zero(scored_at(events, payloads, request, t, false));
        }
    } else {
        lemma_counts(events, payloads, request, threshold, k - 1);
        assert(events.take(k).drop_last() =~= events.take(k - 1));
        assert(events.take(k).last() == events[k - 1]);
        let m = (k - 1) as nat;
        next_place_counts(m, asked);
        if let Some(t) = threshold {
            next_place_counts(m, scored_at(events, payloads, request, t, true));
            next_place_counts(m, scored_at(events, payloads, request, t, false));
        }
    }
}

/// A replay counts the events of its range that tell of the zone: those whose
/// score reaches the revision's threshold are accepted, those whose score stays
/// below it are rejected. The score is the confidence that the event tells, or
/// else that of the trigger of its assertion.
pub proof fn replays_hold_scores_against_the_threshold(
    p: RevisionView,
    events: Seq<EventView>,
    payloads: Seq<JsonView>,
    request: ReplayPolicyRequest,
)
    ensures
        ({
            let e = evaluated(p, events, payloads, request);
            let asked = |i: int|
                {
                    &&& events[i].kind == "restricted_zone_activity_entered"@
                    &&& request.from_seq is Some ==> request.from_seq->0 <= events[i].seq
                    &&& request.to_seq is Some ==> events[i].seq <= request.to_seq->0
                };
            let score = |i: int|
                {
                    let told = payloads[i].double_at("confidence"@);
                    let assertion = payloads[i].get("assertion"@);
                    if told is Some {
                        told
                    } else if assertion is Some && assertion->0.get("trigger"@) is Some {
                        assertion->0.get("trigger"@)->0.double_at("score"@)
                    } else {
                        None
                    }
                };
            &&& e.revision == p.revision
            &&& e.counts.candidates == places(events.len(), asked).len()
            &&& e.counts.accepted + e.counts.rejected + e.counts.without_score
                == e.counts.candidates
            &&& match p.zone {
                Some(zone) => {
                    &&& e.threshold == Some(zone.enter_motion_score)
                    &&& e.counts.accepted == places(
                        events.len(),
                        |i: int|
                            asked(i) && score(i) is Some && zone.enter_motion_score.widened().le(
                                score(i)->0,
                            ),
                    ).len()
                    &&& e.counts.rejected == places(
                        events.len(),
                        |i: int|
                            asked(i) && score(i) is Some && !zone.enter_motion_score.widened().le(
                                score(i)->0,
                            ),
                    ).len()
                },
                None => e.threshold is None && e.counts.accepted == 0 && e.counts.rejected == 0,
            }
        }),
{
    let asked = |i: int|
        {
            &&& events[i].kind == "restricted_zone_activity_entered"@
            &&& request.from_seq is Some ==> request.from_seq->0 <= events[i].seq
            &&& request.to_seq is Some ==> events[i].seq <= request.to_seq->0
        };
    let score = |i: int|
        {
            let told = payloads[i].double_at("confidence"@);
            let assertion = payloads[i].get("assertion"@);
            if told is Some {
                told
            } else if assertion is Some && assertion->0.get("trigger"@) is Some {
                assertion->0.get("trigger"@)->0.double_at("score"@)
            } else {
                None
            }
        };
    let n = events.len();
    replay_counts_add_up(events, payloads, request, threshold_of(p));
    lemma_counts(events, payloads, request, threshold_of(p), n as int);
    assert(events.take(n as int) =~= events);
    same_places(n, |i: int| is_candidate(events[i], request), asked);
    if let Some(zone) = p.zone {
        let t = zone.enter_motion_score;
        same_places(
            n,
            scored_at(events, payloads, request, t, true),
            |i: int| asked(i) && score(i) is Some && t.widened().le(score(i)->0),
        );
        same_places(
            n,
            scored_at(events, payloads, request, t, false),
            |i: int| asked(i) && score(i) is Some && !t.widened().le(score(i)->0),
        );
    }
}

/// Where no event becomes less confident, no fewer events are accepted.
pub proof fn higher_scores_are_accepted_as_well(
    p: RevisionView,
    events: Seq<EventView>,
    lower: Seq<JsonView>,
    higher: Seq<JsonView>,
    request: ReplayPolicyRequest,
)
    requires
        forall|i: int|
            0 <= i < events.len() && (#[trigger] lower[i]).double_at("confidence"@) is Some
                ==> higher[i].double_at("confidence"@) is Some && lower[i].double_at(
                "confidence"@,
            )->0.le(higher[i].double_at("confidence"@)->0),
        forall|i: int|
            0 <= i < events.len() && (#[trigger] lower[i]).double_at("confidence"@) is None
                ==> higher[i] == lower[i],
    ensures
        evaluated(p, events, lower, request).counts.accepted <= evaluated(
            p,
            events,
            higher,
            request,
        ).counts.accepted,
{
    let n = events.len();
    assert(events.take(n as int) =~= events);
    lemma_counts(events, lower, request, threshold_of(p), n as int);
    lemma_counts(events, higher, request, threshold_of(p), n as int);
    if let Some(zone) = p.zone {
        let t = zone.enter_motion_score;
        let low = scored_at(events, lower, request, t, true);
        let high = scored_at(events, higher, request, t, true);
        assert forall|i: int| 0 <= i < n && #[trigger] low(i) implies high(i) by {
            assert(lower[i].double_at("confidence"@) is Some || higher[i] == lower[i]);
        }
        wider_holds_more_often(n, low, high);
    }
}

/// Holds a revision against some events, from what their payloads are.
pub fn evaluate_payloads(
    policy: &PolicyRevision,
    events: &Vec<TimelineEvent>,
    payloads: &Vec<Json>,
    request: &ReplayPolicyRequest,
) -> (r: ReplayEvaluation)
    requires
        payloads@.len() == events@.len(),
    ensures
        r@ == evaluated(policy@, event_views(events@), json_views(payloads@), *request),
        r.is_labelled(),
        ({
            let c = evaluated(policy@, event_views(events@), json_views(payloads@), *request).counts;
            &&& r.candidate_events == c.candidates
            &&& r.accepted_events == c.accepted
            &&& r.rejected_events == c.rejected
            &&& r.events_without_score == c.without_score
        }),
{
    let ghost all = event_views(events@);
    let ghost read = json_views(payloads@);
    let from_seq: u64 = start_of(request);
    let threshold: Option<Single> = match &policy.parameters.restricted_zone {
        Some(z) => Some(z.enter_motion_score),
        None => None,
    };
    let mut candidates: u64 = 0;
    let mut accepted: u64 = 0;
    let mut rejected: u64 = 0;
    let mut without_score: u64 = 0;
    let mut i: usize = 0;
    assert(all.take(0) =~= Seq::empty());
    while i < events.len()
        invariant
            all == event_views(events@),
            read == json_views(payloads@),
            payloads@.len() == events@.len(),
            from_seq == first_seq(*request),
            i <= events@.len(),
            ({
                let c = replay_counts(all.take(i as int), read, *request, threshold);
                &&& c.candidates == candidates
                &&& c.accepted == accepted
                &&& c.rejected == rejected
                &&& c.without_score == without_score
            }),
        decreases events@.len() - i,
    {
        proof {
            assert(all.take(i + 1).drop_last() =~= all.take(i as int));
            assert(all.take(i + 1).last() == events@[i as int]@);
            assert(read[i as int] == payloads@[i as int]@);
            replay_counts_add_up(all.take(i as int), read, *request, threshold);
        }
        let within = match request.to_seq {
            Some(to) => events[i].seq <= to,
            None => true,
        };
        if events[i].is(RESTRICTED_ZONE_EVENT) && events[i].seq >= from_seq && within {
            candidates += 1;
            match (read_score(&payloads[i]), threshold) {
                (Some(score), Some(t)) => if t.widen().at_most(score) {
                    accepted += 1;
                } else {
                    rejected += 1;
                },
                _ => {
                    without_score += 1;
                },
            }
        }
        i += 1;
    }
    assert(all.take(i as int) =~= all);
    ReplayEvaluation {
        revision: policy.revision,
        source: "local_wal",
        comparison: REPLAY_COMPARISON,
        from_seq,
        to_seq: request.to_seq,
        candidate_events: candidates,
        accepted_events: accepted,
        rejected_events: rejected,
        events_without_score: without_score,
        threshold,
        limitation: REPLAY_LIMITATION,
    }
}

/// What came of holding a revision against the log, as JSON.
pub open spec fn evaluation_view(e: EvaluationView) -> JsonView {
    JsonView::Object(
        seq![
            ("revision"@, number_view(e.revision)),
            ("source"@, JsonView::Text("local_wal"@)),
            ("comparison"@, JsonView::Text(REPLAY_COMPARISON@)),
            ("from_seq"@, number_view(e.from_seq)),
            ("to_seq"@, number_or_null(e.to_seq)),
            ("candidate_events"@, number_view(e.counts.candidates as u64)),
            ("accepted_events"@, number_view(e.counts.accepted as u64)),
            ("rejected_events"@, number_view(e.counts.rejected as u64)),
            ("events_without_score"@, number_view(e.counts.without_score as u64)),
            (
                "threshold"@,
                match e.threshold {
                    Some(t) => fraction_view(t.widened()),
                    None => JsonView::Null,
                },
            ),
            ("limitation"@, JsonView::Text(REPLAY_LIMITATION@)),
        ],
    )
}

fn evaluation_json(e: &ReplayEvaluation) -> (r: Json)
    requires
        e.is_labelled(),
    ensures
        r@ == evaluation_view(e@),
{
    let mut o = Fields::new();
    o.put("revision", Json::number(e.revision));
    o.put("source", Json::text(e.source));
    o.put("comparison", Json::text(e.comparison));
    o.put("from_seq", Json::number(e.from_seq));
    o.put("to_seq", Json::number_or_null(e.to_seq));
    o.put("candidate_events", Json::number(e.candidate_events));
    o.put("accepted_events", Json::number(e.accepted_events));
    o.put("rejected_events", Json::number(e.rejected_events));
    o.put("events_without_score", Json::number(e.events_without_score));
    let threshold = match e.threshold {
        Some(t) => Json::single(t),
        None => Json::Null,
    };
    o.put("threshold", threshold);
    o.put("limitation", Json::text(e.limitation));
    assert(o@ =~= evaluation_view(e@)->Object_0);
    o.object()
}

/// Holds a revision against some events.
pub fn evaluate_replay(
    policy: &PolicyRevision,
    events: &Vec<TimelineEvent>,
    request: &ReplayPolicyRequest,
) -> (r: ReplayEvaluation)
    ensures
        r@ == evaluated(
            policy@,
            event_views(events@),
            payloads_of(event_views(events@)),
            *request,
        ),
        r.is_labelled(),
{
    evaluate_payloads(policy, events, &read_payloads(events), request)
}

/// The evaluation of a revision of a run over the events of the run, and the
/// event that keeps it.
pub fn replay_policy(
    request_id: &str,
    revision: u64,
    events: &Vec<TimelineEvent>,
    request: &ReplayPolicyRequest,
) -> (r: Result<(ReplayEvaluation, EventAppend), Reply>)
    ensures
        ({
            let all = event_views(events@);
            let revisions = rebuilt(all, payloads_of(all));
            match (r, place_of(revisions, revision)) {
                (Ok(pair), Some(i)) => pair.0.is_labelled() && pair.0@ == evaluated(
                    revisions[i],
                    all,
                    payloads_of(all),
                    *request,
                ) && pair.1@ == (POLICY_REPLAY_EVALUATED@, evaluation_view(pair.0@)),
                (Err(reply), None) => reply@ == no_such_policy(request_id@, revision),
                _ => false,
            }
        }),
{
    let revisions = reconstruct_policies(events);
    match find_revision(&revisions, revision) {
        None => Err(policy_not_found(request_id, revision)),
        Some(i) => {
            let evaluation = evaluate_replay(&revisions[i], events, request);
            let payload = evaluation_json(&evaluation);
            Ok((evaluation, EventAppend { kind: POLICY_REPLAY_EVALUATED, payload }))
        },
    }
}

/// The reply that tells of an evaluation.
pub fn replay_reply(
    request_id: &str,
    run_id: &str,
    evaluation_id: u64,
    evaluation: &ReplayEvaluation,
) -> (r: Reply)
    requires
        evaluation.is_labelled(),
    ensures
        r@ == ok_view(
            JsonView::Object(
                seq![
                    ("request_id"@, JsonView::Text(request_id@)),
                    ("run_id"@, JsonView::Text(run_id@)),
                    ("evaluation_id"@, number_view(evaluation_id)),
                    ("evaluation"@, evaluation_view(evaluation@)),
                ],
            ),
        ),
{
    let mut o = Fields::new();
    o.put("request_id", Json::text(request_id));
    o.put("run_id", Json::text(run_id));
    o.put("evaluation_id", Json::number(evaluation_id));
    o.put("evaluation", evaluation_json(evaluation));
    assert(o@ =~= seq![
        ("request_id"@, JsonView::Text(request_id@)),
        ("run_id"@, JsonView::Text(run_id@)),
        ("evaluation_id"@, number_view(evaluation_id)),
        ("evaluation"@, evaluation_view(evaluation@)),
    ]);
    ok(o.object())
}

// ----------------------------------------------------------- laws
/// Nothing is sent to a stream unless the caller named the generation that is
/// live.
pub proof fn stale_generations_are_sent_nothing(
    p: RevisionView,
    session: Option<SessionView>,
    apply_live: bool,
    expected_generation: Option<u64>,
)
    requires
        first_step(p, session, apply_live, expected_generation) is Send,
    ensures
        apply_live,
        session is Some,
        expected_generation == Some(session->0.generation),
{
}

proof fn lemma_single_is_read_back(x: Single)
    requires
        x.finite(),
    ensures
        fraction_view(x.widened()).as_single() == Some(x),
{
    crate::ieee::narrowing_undoes_widening(x);
}

proof fn lemma_rect_is_read_back(r: NormalizedRect)
    requires
        r.x.finite() && r.y.finite() && r.width.finite() && r.height.finite(),
    ensures
        rect_of(rect_view(r)) == Some(r),
{
    reveal_strlit("x");
    reveal_strlit("y");
    reveal_strlit("width");
    reveal_strlit("height");
    assert("x"@[0] == 'x' && "y"@[0] == 'y');
    assert("x"@.len() == 1 && "y"@.len() == 1 && "width"@.len() == 5 && "height"@.len() == 6);
    let fields = rect_view(r)->Object_0;
    let names = seq!["x"@, "y"@, "width"@, "height"@];
    crate::json::field_is_found(fields, 0);
    crate::json::field_is_found(fields, 1);
    crate::json::field_is_found(fields, 2);
    crate::json::field_is_found(fields, 3);
    assert(crate::policies::all_named(fields, names)) by {
        assert(names[0] == fields[0].0 && names[1] == fields[1].0 && names[2] == fields[2].0
            && names[3] == fields[3].0);
    }
    lemma_single_is_read_back(r.x);
    lemma_single_is_read_back(r.y);
    lemma_single_is_read_back(r.width);
    lemma_single_is_read_back(r.height);
}

proof fn lemma_zone_is_read_back(z: ZoneView)
    requires
        z.region.x.finite() && z.region.y.finite() && z.region.width.finite()
            && z.region.height.finite(),
        z.enter_motion_score.finite() && z.exit_motion_score.finite(),
    ensures
        zone_of(zone_view(z)) == Some(z),
{
    reveal_strlit("policy_id");
    reveal_strlit("policy_version");
    reveal_strlit("device_id");
    reveal_strlit("region");
    reveal_strlit("enter_motion_score");
    reveal_strlit("exit_motion_score");
    reveal_strlit("enter_after_frames");
    reveal_strlit("exit_after_frames");
    assert("policy_id"@.len() == 9 && "policy_version"@.len() == 14 && "device_id"@.len() == 9
        && "region"@.len() == 6 && "enter_motion_score"@.len() == 18 && "exit_motion_score"@.len()
        == 17 && "enter_after_frames"@.len() == 18 && "exit_after_frames"@.len() == 17);
    assert("policy_id"@[0] == 'p' && "device_id"@[0] == 'd');
    assert("enter_motion_score"@[6] == 'm' && "enter_after_frames"@[6] == 'a');
    assert("exit_motion_score"@[5] == 'm' && "exit_after_frames"@[5] == 'a');
    let fields = zone_view(z)->Object_0;
    let names = zone_names();
    crate::json::field_is_found(fields, 0);
    crate::json::field_is_found(fields, 1);
    crate::json::field_is_found(fields, 2);
    crate::json::field_is_found(fields, 3);
    crate::json::field_is_found(fields, 4);
    crate::json::field_is_found(fields, 5);
    crate::json::field_is_found(fields, 6);
    crate::json::field_is_found(fields, 7);
    assert(crate::policies::all_named(fields, names)) by {
        assert(names[0] == fields[0].0 && names[1] == fields[1].0 && names[2] == fields[2].0
            && names[3] == fields[3].0 && names[4] == fields[4].0 && names[5] == fields[5].0
            && names[6] == fields[6].0 && names[7] == fields[7].0);
    }
    lemma_rect_is_read_back(z.region);
    lemma_single_is_read_back(z.enter_motion_score);
    lemma_single_is_read_back(z.exit_motion_score);
}

/// A revision that is made from a request without problems is the one that the
/// request asks for, a draft with the number of its event.
pub proof fn made_revisions_are_read_back(
    policies: Seq<RevisionView>,
    request: CreateView,
    schema_bytes: nat,
    ends: RectEnds,
    event: EventView,
)
    requires
        request_problems(request, schema_bytes, ends).len() == 0,
        event.kind == POLICY_CREATED@,
    ensures
        after_event(policies, event, created_policy_payload(request)) == policies.push(
            RevisionView {
                revision: event.seq,
                parent_revision: request.parent_revision,
                status: PolicyStatus::Draft,
                prompt: match request.prompt {
                    Some(p) => Some(trimmed(p)),
                    None => None,
                },
                output_schema: request.output_schema,
                zone: request.zone,
                created_at_ms: event.pts_ms,
                updated_at_ms: event.pts_ms,
                effective_generation: None,
                effective_on_current_generation: false,
                deferred_fields: Seq::empty(),
            },
        ),
{
    reveal_strlit("parent_revision");
    reveal_strlit("prompt");
    reveal_strlit("output_schema");
    reveal_strlit("parameters");
    reveal_strlit("restricted_zone");
    assert("parent_revision"@.len() == 15 && "prompt"@.len() == 6 && "output_schema"@.len() == 13
        && "parameters"@.len() == 10);
    let payload = created_policy_payload(request);
    let fields = payload->Object_0;
    crate::json::field_is_found(fields, 0);
    crate::json::field_is_found(fields, 1);
    crate::json::field_is_found(fields, 2);
    crate::json::field_is_found(fields, 3);
    assert(schema_problems(request.output_schema, schema_bytes).len() == 0);
    let names = seq!["restricted_zone"@];
    match request.zone {
        Some(z) => {
            assert(zone_problems(z, ends).len() == 0);
            assert(is_inside(z.region, ends)) by {
                lemma_no_problem(z, ends);
            }
            assert(scores_fit(z.enter_motion_score, z.exit_motion_score)) by {
                lemma_no_problem(z, ends);
            }
            lemma_zone_is_read_back(z);
            let inner = parameters_view(request.zone)->Object_0;
            crate::json::field_is_found(inner, 0);
            assert(crate::policies::all_named(inner, names)) by {
                assert(names[0] == inner[0].0);
            }
        },
        None => {
            assert(crate::policies::all_named(
                parameters_view(request.zone)->Object_0,
                names,
            ));
            assert(crate::json::find_field(
                Seq::<(Seq<char>, JsonView)>::empty(),
                "restricted_zone"@,
            ) is None);
        },
    }
}

proof fn lemma_no_problem(z: ZoneView, ends: RectEnds)
    requires
        zone_problems(z, ends).len() == 0,
    ensures
        is_inside(z.region, ends),
        scores_fit(z.enter_motion_score, z.exit_motion_score),
{
    if !is_inside(z.region, ends) {
        assert(zone_problems(z, ends).len() >= 1);
    }
    if !scores_fit(z.enter_motion_score, z.exit_motion_score) {
        assert(zone_problems(z, ends).len() >= 1);
    }
}

/// A deployment that was carried out is told of by the revision: it has the
/// status that was asked for, and the generation that took it up.
pub proof fn deployments_are_read_back(
    policies: Seq<RevisionView>,
    revision: u64,
    request_seq: u64,
    stage: PolicyStatus,
    application: ApplicationView,
    event: EventView,
)
    requires
        place_of(policies, revision) is Some,
        event.kind == deploy_acknowledged(revision, request_seq, stage, application).0,
    ensures
        ({
            let i = place_of(policies, revision)->0;
            let p = after_event(
                policies,
                event,
                deploy_acknowledged(revision, request_seq, stage, application).1,
            )[i];
            &&& p.revision == revision
            &&& p.status == stage
            &&& p.updated_at_ms == event.pts_ms
            &&& p.effective_generation == application.generation
            &&& p.effective_on_current_generation == application.effective_on_current_generation
            &&& p.deferred_fields == application.deferred_fields
        }),
{
    let payload = deploy_acknowledged(revision, request_seq, stage, application).1;
    let fields = payload->Object_0;
    reveal_strlit("revision");
    reveal_strlit("request_seq");
    reveal_strlit("status");
    reveal_strlit("application");
    assert("revision"@.len() == 8 && "request_seq"@.len() == 11 && "status"@.len() == 6
        && "application"@.len() == 11);
    assert("request_seq"@[0] == 'r' && "application"@[0] == 'a');
    crate::json::field_is_found(fields, 0);
    crate::json::field_is_found(fields, 2);
    crate::json::field_is_found(fields, 3);
    crate::policies::status_names_are_read_back(stage);
    lemma_application_is_read_back(application);
    lemma_kinds_differ();
    lemma_place(policies, revision);
    let rest = if stage == PolicyStatus::Active {
        crate::policies::after_retiring(policies, revision, event.pts_ms)
    } else {
        policies
    };
    assert forall|i: int| 0 <= i < rest.len() implies (#[trigger] rest[i]).revision
        == policies[i].revision by {}
    crate::policies::lemma_same_places(rest, policies, revision);
}

proof fn lemma_kinds_differ()
    ensures
        POLICY_CREATED@ != POLICY_DEPLOY_ACKNOWLEDGED@,
        POLICY_CREATED@ != POLICY_ROLLBACK_ACKNOWLEDGED@,
        POLICY_DEPLOY_ACKNOWLEDGED@ != POLICY_ROLLBACK_ACKNOWLEDGED@,
{
    reveal_strlit("policy_revision_created");
    reveal_strlit("policy_deployment_acknowledged");
    reveal_strlit("policy_rollback_acknowledged");
    assert(POLICY_CREATED@.len() == 23);
    assert(POLICY_DEPLOY_ACKNOWLEDGED@.len() == 30);
    assert(POLICY_ROLLBACK_ACKNOWLEDGED@.len() == 28);
}

proof fn lemma_application_is_read_back(a: ApplicationView)
    ensures
        application_view(a).unsigned_at("generation"@) == a.generation,
        application_view(a).flag_at("effective_on_current_generation"@) == Some(
            a.effective_on_current_generation,
        ),
        application_view(a).items_at("deferred_fields"@) == Some(text_views(a.deferred_fields)),
        crate::json::texts_among(text_views(a.deferred_fields)) == a.deferred_fields,
{
    let fields = application_view(a)->Object_0;
    reveal_strlit("session_id");
    reveal_strlit("generation");
    reveal_strlit("prompt_acknowledged");
    reveal_strlit("effective_on_current_generation");
    reveal_strlit("deferred_fields");
    assert("session_id"@.len() == 10 && "generation"@.len() == 10 && "prompt_acknowledged"@.len()
        == 19 && "effective_on_current_generation"@.len() == 31 && "deferred_fields"@.len() == 15);
    assert("session_id"@[0] == 's' && "generation"@[0] == 'g');
    crate::json::field_is_found(fields, 1);
    crate::json::field_is_found(fields, 3);
    crate::json::field_is_found(fields, 4);
    lemma_texts_are_read_back(a.deferred_fields);
}

/// A return to a revision that was carried out makes that revision active, and
/// the one that was active before is rolled back.
pub proof fn rollbacks_are_read_back(
    policies: Seq<RevisionView>,
    revision: u64,
    from_revision: u64,
    request_seq: u64,
    application: ApplicationView,
    event: EventView,
)
    requires
        place_of(policies, revision) is Some,
        place_of(policies, from_revision) is Some,
        revision != from_revision,
        event.kind == rollback_acknowledged(revision, from_revision, request_seq, application).0,
    ensures
        ({
            let after = after_event(
                policies,
                event,
                rollback_acknowledged(revision, from_revision, request_seq, application).1,
            );
            let i = place_of(policies, revision)->0;
            let k = place_of(policies, from_revision)->0;
            &&& after[i].status == PolicyStatus::Active
            &&& after[i].effective_generation == application.generation
            &&& after[k].status == PolicyStatus::RolledBack
            &&& !after[k].effective_on_current_generation
        }),
{
    let payload = rollback_acknowledged(revision, from_revision, request_seq, application).1;
    let fields = payload->Object_0;
    reveal_strlit("revision");
    reveal_strlit("from_revision");
    reveal_strlit("request_seq");
    reveal_strlit("status");
    reveal_strlit("application");
    assert("revision"@.len() == 8 && "from_revision"@.len() == 13 && "request_seq"@.len() == 11
        && "status"@.len() == 6 && "application"@.len() == 11);
    assert("request_seq"@[0] == 'r' && "application"@[0] == 'a');
    crate::json::field_is_found(fields, 0);
    crate::json::field_is_found(fields, 1);
    crate::json::field_is_found(fields, 4);
    lemma_application_is_read_back(application);
    lemma_kinds_differ();
    lemma_place(policies, revision);
    lemma_place(policies, from_revision);
    let rest = crate::policies::after_leaving(policies, Some(from_revision), event.pts_ms);
    assert forall|j: int| 0 <= j < rest.len() implies (#[trigger] rest[j]).revision
        == policies[j].revision by {}
    let retired = crate::policies::after_retiring(rest, revision, event.pts_ms);
    assert forall|j: int| 0 <= j < retired.len() implies (#[trigger] retired[j]).revision
        == policies[j].revision by {
        assert(rest[j].revision == policies[j].revision);
    }
    crate::policies::lemma_same_places(retired, policies, revision);
}

/// A revision is taken up exactly where everything in its request is within its
/// bounds: it has a prompt or a zone, a prompt is not blank and has at most
/// 32768 bytes, a schema is an object of at most 65536 bytes, and a zone has
/// names of at most 128 bytes, lies in the image, is entered at a score between
/// zero and one above the one at which it is left, and after one to 300 frames
/// each.
pub proof fn policy_requests_keep_their_bounds(
    request: CreateView,
    schema_bytes: nat,
    ends: RectEnds,
)
    ensures
        request_problems(request, schema_bytes, ends).len() == 0 <==> {
            &&& request.prompt is Some || request.zone is Some
            &&& request.prompt is Some ==> trimmed(request.prompt->0).len() > 0 && encode_utf8(
                request.prompt->0,
            ).len() <= 32768
            &&& request.output_schema is Some ==> request.output_schema->0 is Object && schema_bytes
                <= 65536
            &&& request.zone is Some ==> {
                let z = request.zone->0;
                let low = z.exit_motion_score;
                let high = z.enter_motion_score;
                &&& trimmed(z.policy_id).len() > 0 && encode_utf8(z.policy_id).len() <= 128
                &&& trimmed(z.device_id).len() > 0 && encode_utf8(z.device_id).len() <= 128
                &&& z.region.x.finite() && z.region.y.finite()
                &&& z.region.width.finite() && z.region.height.finite()
                &&& 0 <= z.region.x.rank() && 0 <= z.region.y.rank()
                &&& 0 < z.region.width.rank() && 0 < z.region.height.rank()
                &&& !single(0x3f80_0000).lt(ends.right) && !single(0x3f80_0000).lt(ends.bottom)
                &&& low.finite() && high.finite()
                &&& 0 <= low.rank() < high.rank() <= single(0x3f80_0000).rank()
                &&& 1 <= z.enter_after_frames <= 300
                &&& 1 <= z.exit_after_frames <= 300
            }
        },
{
    if let Some(z) = request.zone {
        assert(zone_problems(z, ends).len() == 0 <==> !bad_zone_id(z.policy_id) && !bad_zone_id(
            z.device_id,
        ) && is_inside(z.region, ends) && scores_fit(z.enter_motion_score, z.exit_motion_score) && 1
            <= z.enter_after_frames <= 300 && 1 <= z.exit_after_frames <= 300);
        assert(zero().rank() == 0);
    }
}

/// An evaluation as JSON tells each count under its name.
pub proof fn evaluations_tell_their_counts(e: EvaluationView)
    requires
        e.counts.candidates <= u64::MAX,
        e.counts.accepted <= u64::MAX,
        e.counts.rejected <= u64::MAX,
        e.counts.without_score <= u64::MAX,
    ensures
        ({
            let told = evaluation_view(e);
            &&& told.unsigned_at("revision"@) == Some(e.revision)
            &&& told.unsigned_at("from_seq"@) == Some(e.from_seq)
            &&& told.unsigned_at("to_seq"@) == e.to_seq
            &&& told.unsigned_at("candidate_events"@) == Some(e.counts.candidates as u64)
            &&& told.unsigned_at("accepted_events"@) == Some(e.counts.accepted as u64)
            &&& told.unsigned_at("rejected_events"@) == Some(e.counts.rejected as u64)
            &&& told.unsigned_at("events_without_score"@) == Some(e.counts.without_score as u64)
        }),
{
    reveal_strlit("revision");
    reveal_strlit("source");
    reveal_strlit("comparison");
    reveal_strlit("from_seq");
    reveal_strlit("to_seq");
    reveal_strlit("candidate_events");
    reveal_strlit("accepted_events");
    reveal_strlit("rejected_events");
    reveal_strlit("events_without_score");
    assert("revision"@.len() == 8 && "source"@.len() == 6 && "comparison"@.len() == 10
        && "from_seq"@.len() == 8 && "to_seq"@.len() == 6 && "candidate_events"@.len() == 16
        && "accepted_events"@.len() == 15 && "rejected_events"@.len() == 15
        && "events_without_score"@.len() == 20);
    assert("revision"@[0] == 'r' && "from_seq"@[0] == 'f' && "source"@[0] == 's' && "to_seq"@[0]
        == 't' && "accepted_events"@[0] == 'a' && "rejected_events"@[0] == 'r');
    let fields = evaluation_view(e)->Object_0;
    crate::json::field_is_found(fields, 0);
    crate::json::field_is_found(fields, 3);
    crate::json::field_is_found(fields, 4);
    crate::json::field_is_found(fields, 5);
    crate::json::field_is_found(fields, 6);
    crate::json::field_is_found(fields, 7);
    crate::json::field_is_found(fields, 8);
}

/// A revision is made on top of the newest one: that is the one with the
/// greatest number.
pub proof fn the_newest_revision_has_the_greatest_number(
    events: Seq<EventView>,
    payloads: Seq<JsonView>,
    i: int,
)
    requires
        0 <= i < rebuilt(events, payloads).len(),
    ensures
        newest(rebuilt(events, payloads)) is Some,
        rebuilt(events, payloads)[i].revision <= newest(rebuilt(events, payloads))->0,
        rebuilt(events, payloads).last().revision == newest(rebuilt(events, payloads))->0,
{
    crate::policies::revisions_come_by_their_numbers(events, payloads);
    let r = rebuilt(events, payloads);
    assert(r.last() == r[r.len() - 1]);
}

/// A run can go back to a revision exactly where the revision is there, was
/// active once and is not now, and another one is active.
pub proof fn rollbacks_go_to_former_revisions(
    request_id: Seq<char>,
    policies: Seq<RevisionView>,
    revision: u64,
)
    requires
        forall|i: int, j: int|
            0 <= i < j < policies.len() ==> (#[trigger] policies[i]).revision != (
            #[trigger] policies[j]).revision,
    ensures
        rollback_refusal(request_id, policies, revision) is None <==> {
            &&& exists|i: int|
                0 <= i < policies.len() && (#[trigger] policies[i]).revision == revision && (
                policies[i].status == PolicyStatus::Retired || policies[i].status
                    == PolicyStatus::RolledBack)
            &&& exists|k: int|
                0 <= k < policies.len() && (#[trigger] policies[k]).status == PolicyStatus::Active
        },
{
    lemma_place(policies, revision);
    lemma_active_place(policies);
    if let (Some(i), Some(k)) = (place_of(policies, revision), active_place(policies)) {
        assert(policies[i].revision == revision);
        assert forall|j: int| 0 <= j < policies.len() && j != i implies (
        #[trigger] policies[j]).revision != revision by {
            if j < i {
                assert(policies[j].revision != policies[i].revision);
            } else {
                assert(policies[i].revision != policies[j].revision);
            }
        }
    }
}

proof fn lemma_active_place(policies: Seq<RevisionView>)
    ensures
        match active_place(policies) {
            Some(k) => 0 <= k < policies.len() && policies[k].status == PolicyStatus::Active,
            None => forall|k: int|
                0 <= k < policies.len() ==> (#[trigger] policies[k]).status != PolicyStatus::Active,
        },
    decreases policies.len(),
{
    if policies.len() > 0 {
        let rest = policies.drop_last();
        lemma_active_place(rest);
        assert forall|k: int| 0 <= k < rest.len() implies #[trigger] policies[k] == rest[k] by {}
    }
}

/// A revision can be deployed to a stage exactly where it is there and the stage
/// is the next one up from its own.
pub proof fn deployments_go_to_the_next_stage(
    request_id: Seq<char>,
    policies: Seq<RevisionView>,
    revision: u64,
    stage: PolicyStatus,
)
    ensures
        activation_refusal(request_id, policies, revision, stage) is None ==> exists|i: int|
            0 <= i < policies.len() && (#[trigger] policies[i]).revision == revision && (
            (policies[i].status == PolicyStatus::Draft && stage == PolicyStatus::Shadow) || (
            policies[i].status == PolicyStatus::Shadow && stage == PolicyStatus::Canary) || (
            policies[i].status == PolicyStatus::Canary && stage == PolicyStatus::Active)),
        (forall|i: int| 0 <= i < policies.len() ==> (#[trigger] policies[i]).revision != revision)
            ==> activation_refusal(request_id, policies, revision, stage) is Some
            && activation_refusal(request_id, policies, revision, stage)->0.status == 404,
{
    lemma_place(policies, revision);
}

/// Policies are told and changed by the owner of their run alone.
pub proof fn policies_belong_to_the_owner(
    request_id: Seq<char>,
    run_id: Seq<char>,
    snapshot: Option<SnapshotView>,
    principal: Seq<char>,
)
    ensures
        policy_refusal(request_id, run_id, snapshot, principal) is None <==> valid_run_id(run_id)
            && snapshot is Some && snapshot->0.principal_key == principal,
        valid_run_id(run_id) && policy_refusal(request_id, run_id, snapshot, principal) is Some
            ==> policy_refusal(request_id, run_id, snapshot, principal)->0.status == 404,
        !valid_run_id(run_id) ==> policy_refusal(
            request_id,
            run_id,
            snapshot,
            principal,
        )->0.status == 422,
{
}

/// A command that the pipeline does not take is told with why: it is in
/// conflict, or unavailable where no answer came in time.
pub proof fn untaken_commands_tell_why(request_id: Seq<char>, e: DeploymentErrorView)
    ensures
        deployment_refusal(request_id, e).status == if e is AcknowledgementTimeout {
            503u16
        } else {
            409
        },
        e is ExpectedGenerationRequired ==> reason_of(e) == "expected_generation_required"@,
        e is AcknowledgementTimeout ==> reason_of(e) == "acknowledgement_timeout"@,
        e matches DeploymentErrorView::StaleGeneration { expected, current } ==> reason_of(e)
            == "stale_generation: expected "@ + decimal(expected as nat) + ", current "@ + decimal(
            current as nat,
        ),
        e matches DeploymentErrorView::GenerationClosed(message) ==> reason_of(e)
            == "generation_closed: "@ + message,
{
}

/// What is asked of the pipeline, and what it does not take, is logged with the
/// revision, where it came from and where it was to go.
pub proof fn commands_are_logged_whole(
    revision: u64,
    other_revision: u64,
    from: PolicyStatus,
    to: PolicyStatus,
    request_seq: u64,
    expected_generation: Option<u64>,
    e: DeploymentErrorView,
)
    ensures
        ({
            let asked = deploy_requested(revision, from, to, expected_generation).1;
            let refused = deploy_rejected(revision, request_seq, to, e).1;
            let back = rollback_requested(revision, other_revision, expected_generation).1;
            let kept = rollback_rejected(revision, other_revision, request_seq, e).1;
            &&& asked.unsigned_at("revision"@) == Some(revision)
            &&& asked.text_at("from_status"@) == Some(from.name())
            &&& asked.text_at("to_status"@) == Some(to.name())
            &&& asked.unsigned_at("expected_generation"@) == expected_generation
            &&& refused.unsigned_at("revision"@) == Some(revision)
            &&& refused.unsigned_at("request_seq"@) == Some(request_seq)
            &&& refused.text_at("to_status"@) == Some(to.name())
            &&& refused.text_at("reason"@) == Some(reason_of(e))
            &&& back.unsigned_at("revision"@) == Some(revision)
            &&& back.unsigned_at("from_revision"@) == Some(other_revision)
            &&& back.unsigned_at("expected_generation"@) == expected_generation
            &&& kept.unsigned_at("revision"@) == Some(revision)
            &&& kept.unsigned_at("from_revision"@) == Some(other_revision)
            &&& kept.unsigned_at("request_seq"@) == Some(request_seq)
            &&& kept.text_at("reason"@) == Some(reason_of(e))
        }),
{
    reveal_strlit("revision");
    reveal_strlit("from_status");
    reveal_strlit("to_status");
    reveal_strlit("expected_generation");
    reveal_strlit("request_seq");
    reveal_strlit("reason");
    reveal_strlit("from_revision");
    assert("revision"@.len() == 8);
    assert("from_status"@.len() == 11);
    assert("to_status"@.len() == 9);
    assert("expected_generation"@.len() == 19);
    assert("request_seq"@.len() == 11);
    assert("reason"@.len() == 6);
    assert("from_revision"@.len() == 13);
    assert("from_status"@[0] == 'f' && "request_seq"@[0] == 'r');
    let a = deploy_requested(revision, from, to, expected_generation).1->Object_0;
    let b = deploy_rejected(revision, request_seq, to, e).1->Object_0;
    let c = rollback_requested(revision, other_revision, expected_generation).1->Object_0;
    let d = rollback_rejected(revision, other_revision, request_seq, e).1->Object_0;
    crate::json::field_is_found(a, 0);
    crate::json::field_is_found(a, 1);
    crate::json::field_is_found(a, 2);
    crate::json::field_is_found(a, 3);
    crate::json::field_is_found(b, 0);
    crate::json::field_is_found(b, 1);
    crate::json::field_is_found(b, 2);
    crate::json::field_is_found(b, 3);
    crate::json::field_is_found(c, 0);
    crate::json::field_is_found(c, 1);
    crate::json::field_is_found(c, 2);
    crate::json::field_is_found(d, 0);
    crate::json::field_is_found(d, 1);
    crate::json::field_is_found(d, 2);
    crate::json::field_is_found(d, 3);
}

/// A range of the log is one exactly if it does not end before it begins.
pub proof fn ranges_end_behind_their_beginning(request: ReplayPolicyRequest)
    ensures
        has_range(request) <==> (request.to_seq matches Some(to) ==> first_seq(request) <= to),
{
}

/// A policy can be brought to the three stages in which it works, and to no
/// other.
pub proof fn policies_work_in_three_stages(stage: PolicyStatus)
    ensures
        is_stage(stage) <==> stage is Shadow || stage is Canary || stage is Active,
{
}

} // verus!
