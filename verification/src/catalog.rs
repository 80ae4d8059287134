//! The models that the server knows, and the feedback on its runs.

use vstd::prelude::*;

use crate::inference_metrics::ProviderKind;
use crate::json::{
    json_views, jsons_of, list_of, number_view, text_views, Fields, Json, JsonNumber, JsonView,
    ToJson,
};
use crate::models::{FeedbackRequest, ModelCatalogItem};
use crate::response::{
    internal_error, internal_view, invalid_field, invalid_field_view, ok, ok_view, Reply,
    ReplyView,
};
use crate::runs::{
    bad_run_id, load_run_snapshot, opt_snapshot, owned_in, owned_run_ids_from_events, run_not_found,
    run_reply, run_reply_json, validate_run_id_or_error, visible, RunIds, RunSnapshot,
    SnapshotView,
};
use crate::sort::views;
use crate::text::{owned, owned_list, texts};
use crate::timeline::{event_views, EventView, TimelineEvent};

verus! {

// ---------------------------------------------------------------- models
/// A model that the server must know, and those that can stand in for it.
#[derive(Debug)]
pub struct KnownModel {
    pub id: String,
    pub fallback_candidates: Vec<String>,
}

/// What a model is in the catalog.
pub ghost struct CatalogView {
    pub id: Seq<char>,
    pub tier: Seq<char>,
    pub availability: Seq<char>,
    pub providers_available: Seq<Seq<char>>,
    pub fallback_candidates: Seq<Seq<char>>,
}

impl View for ModelCatalogItem {
    type V = CatalogView;

    open spec fn view(&self) -> CatalogView {
        CatalogView {
            id: self.id@,
            tier: self.tier@,
            availability: self.availability@,
            providers_available: texts(self.providers_available@),
            fallback_candidates: texts(self.fallback_candidates@),
        }
    }
}

/// A model of the catalog as JSON.
pub open spec fn catalog_json(v: CatalogView) -> JsonView {
    JsonView::Object(
        seq![
            ("id"@, JsonView::Text(v.id)),
            ("tier"@, JsonView::Text(v.tier)),
            ("availability"@, JsonView::Text(v.availability)),
            ("providers_available"@, JsonView::Array(text_views(v.providers_available))),
            ("fallback_candidates"@, JsonView::Array(text_views(v.fallback_candidates))),
        ],
    )
}

impl ToJson for ModelCatalogItem {
    open spec fn json_of(v: CatalogView) -> JsonView {
        catalog_json(v)
    }

    fn to_json(&self) -> (r: Json) {
        let mut o = Fields::new();
        o.put("id", Json::text(self.id.as_str()));
        o.put("tier", Json::text(self.tier.as_str()));
        o.put("availability", Json::text(self.availability.as_str()));
        o.put("providers_available", Json::text_list(&self.providers_available));
        o.put("fallback_candidates", Json::text_list(&self.fallback_candidates));
        assert(o@ =~= catalog_json(self@)->Object_0);
        o.object()
    }
}

/// Whether models can be asked, and through whom.
#[derive(Debug)]
pub struct RuntimeAvailability {
    pub status: &'static str,
    pub providers: Vec<String>,
}

/// Whether models can be asked.
pub open spec fn availability_of(provider: Option<ProviderKind>, saturated: bool) -> Seq<char> {
    match provider {
        None => "unavailable"@,
        Some(_) => if saturated {
            "saturated"@
        } else {
            "ready"@
        },
    }
}

/// Through whom models can be asked.
pub open spec fn providers_of(provider: Option<ProviderKind>) -> Seq<Seq<char>> {
    match provider {
        None => Seq::empty(),
        Some(p) => seq![p.label()],
    }
}

/// Whether models can be asked, and through whom.
pub fn runtime_model_availability(
    provider: Option<ProviderKind>,
    is_saturated: bool,
) -> (r: RuntimeAvailability)
    ensures
        r.status@ == availability_of(provider, is_saturated),
        texts(r.providers@) == providers_of(provider),
{
    let mut providers: Vec<String> = Vec::new();
    match provider {
        None => {
            assert(texts(providers@) =~= Seq::empty());
            RuntimeAvailability { status: "unavailable", providers }
        },
        Some(p) => {
            providers.push(owned(p.name()));
            assert(texts(providers@) =~= seq![p.label()]);
            RuntimeAvailability {
                status: if is_saturated {
                    "saturated"
                } else {
                    "ready"
                },
                providers,
            }
        },
    }
}

/// The catalog of some models.
pub open spec fn catalog_of(
    models: Seq<KnownModel>,
    tier: Seq<char>,
    status: Seq<char>,
    providers: Seq<Seq<char>>,
) -> Seq<CatalogView> {
    models.map_values(
        |m: KnownModel|
            CatalogView {
                id: m.id@,
                tier,
                availability: status,
                providers_available: providers,
                fallback_candidates: texts(m.fallback_candidates@),
            },
    )
}

fn append_tier(
    out: &mut Vec<ModelCatalogItem>,
    models: &Vec<KnownModel>,
    tier: &str,
    availability: &RuntimeAvailability,
)
    ensures
        views(final(out)@) == views(old(out)@) + catalog_of(
            models@,
            tier@,
            availability.status@,
            texts(availability.providers@),
        ),
{
    let ghost start = views(out@);
    let ghost all = catalog_of(
        models@,
        tier@,
        availability.status@,
        texts(availability.providers@),
    );
    let mut i: usize = 0;
    assert(start + all.take(0) =~= start);
    while i < models.len()
        invariant
            all == catalog_of(
                models@,
                tier@,
                availability.status@,
                texts(availability.providers@),
            ),
            i <= models@.len(),
            views(out@) == start + all.take(i as int),
        decreases models@.len() - i,
    {
        let item = ModelCatalogItem {
            id: owned(models[i].id.as_str()),
            tier: owned(tier),
            availability: owned(availability.status),
            providers_available: owned_list(&availability.providers),
            fallback_candidates: owned_list(&models[i].fallback_candidates),
        };
        let ghost iv = item@;
        let ghost before = views(out@);
        assert(iv == all[i as int]);
        out.push(item);
        assert(views(out@) =~= before.push(iv));
        assert(start + all.take(i + 1) =~= before.push(iv));
        i += 1;
    }
    assert(all.take(i as int) =~= all);
}

/// The reply with the catalog: the medium models, and then the small ones.
pub open spec fn models_reply(
    request_id: Seq<char>,
    medium: Seq<KnownModel>,
    small: Seq<KnownModel>,
    provider: Option<ProviderKind>,
    saturated: bool,
) -> ReplyView {
    let status = availability_of(provider, saturated);
    let providers = providers_of(provider);
    ok_view(
        JsonView::Object(
            seq![
                ("request_id"@, JsonView::Text(request_id)),
                (
                    "models"@,
                    JsonView::Array(
                        jsons_of::<ModelCatalogItem>(
                            catalog_of(medium, "medium"@, status, providers) + catalog_of(
                                small,
                                "small"@,
                                status,
                                providers,
                            ),
                        ),
                    ),
                ),
            ],
        ),
    )
}

/// Tells which models there are, and whether they can be asked.
pub fn list_models(
    request_id: &str,
    medium: &Vec<KnownModel>,
    small: &Vec<KnownModel>,
    provider: Option<ProviderKind>,
    is_saturated: bool,
) -> (r: Reply)
    ensures
        r@ == models_reply(request_id@, medium@, small@, provider, is_saturated),
{
    let availability = runtime_model_availability(provider, is_saturated);
    let mut models: Vec<ModelCatalogItem> = Vec::new();
    assert(views(models@) =~= Seq::empty());
    append_tier(&mut models, medium, "medium", &availability);
    append_tier(&mut models, small, "small", &availability);
    let ghost status = availability_of(provider, is_saturated);
    let ghost providers = providers_of(provider);
    assert(views(models@) =~= catalog_of(medium@, "medium"@, status, providers) + catalog_of(
        small@,
        "small"@,
        status,
        providers,
    ));
    let mut o = Fields::new();
    o.put("request_id", Json::text(request_id));
    o.put("models", list_of(&models));
    assert(o@ =~= models_reply(
        request_id@,
        medium@,
        small@,
        provider,
        is_saturated,
    ).body->Object_0);
    ok(o.object())
}

/// The reply of a server that is up.
pub fn health() -> (r: Reply)
    ensures
        r@ == ok_view(JsonView::Object(seq![("status"@, JsonView::Text("ok"@))])),
{
    let mut o = Fields::new();
    o.put("status", Json::text("ok"));
    assert(o@ =~= seq![("status"@, JsonView::Text("ok"@))]);
    ok(o.object())
}

// -------------------------------------------------------------- feedback
/// Feedback on a run, as it is handed to the database.
#[derive(Debug)]
pub struct SubmitFeedback {
    pub run_id: String,
    pub session_id: String,
    pub rating: u32,
    pub category: String,
    pub feedback: String,
}

/// The refusal of feedback, where it is refused. `configured` says whether there
/// is a database for it.
pub open spec fn feedback_refusal(
    request_id: Seq<char>,
    run_id: Seq<char>,
    payload: FeedbackRequest,
    snapshot: Option<SnapshotView>,
    principal: Seq<char>,
    configured: bool,
) -> Option<ReplyView> {
    let c = "invalid feedback payload"@;
    if !crate::ids::valid_run_id(run_id) {
        Some(bad_run_id(request_id, "invalid feedback request"@))
    } else if payload.rating > 10 {
        Some(invalid_field_view(request_id, c, "rating"@, "rating must be between 0 and 10"@))
    } else if payload.category@.len() == 0 {
        Some(invalid_field_view(request_id, c, "category"@, "category must not be empty"@))
    } else if !visible(snapshot, principal) {
        Some(run_not_found(request_id, run_id))
    } else if !configured {
        Some(internal_view(request_id))
    } else {
        None
    }
}

/// The feedback that a request gives, where it is not refused.
pub fn submit_feedback(
    request_id: &str,
    run_id: &str,
    payload: &FeedbackRequest,
    snapshot: &Option<RunSnapshot>,
    principal: &str,
    configured: bool,
) -> (r: Result<SubmitFeedback, Reply>)
    ensures
        ({
            let refusal = feedback_refusal(
                request_id@,
                run_id@,
                *payload,
                opt_snapshot(*snapshot),
                principal@,
                configured,
            );
            match r {
                Ok(f) => {
                    &&& refusal is None
                    &&& f.run_id@ == run_id@
                    &&& f.session_id@ == Seq::<char>::empty()
                    &&& f.rating == payload.rating
                    &&& f.category@ == payload.category@
                    &&& f.feedback@ == match payload.feedback {
                        Some(t) => t@,
                        None => Seq::empty(),
                    }
                },
                Err(reply) => refusal == Some(reply@),
            }
        }),
{
    match validate_run_id_or_error(request_id, run_id, "invalid feedback request") {
        Some(reply) => return Err(reply),
        None => {},
    }
    if payload.rating > 10 {
        return Err(
            invalid_field(
                request_id,
                "invalid feedback payload",
                "rating",
                owned("rating must be between 0 and 10"),
            ),
        );
    }
    if payload.category.as_str().is_empty() {
        return Err(
            invalid_field(
                request_id,
                "invalid feedback payload",
                "category",
                owned("category must not be empty"),
            ),
        );
    }
    match load_run_snapshot(request_id, run_id, snapshot, principal) {
        Ok(_) => {},
        Err(reply) => return Err(reply),
    }
    if !configured {
        return Err(internal_error(request_id));
    }
    let feedback = match &payload.feedback {
        Some(t) => owned(t.as_str()),
        None => String::new(),
    };
    Ok(
        SubmitFeedback {
            run_id: owned(run_id),
            session_id: String::new(),
            rating: payload.rating,
            category: owned(payload.category.as_str()),
            feedback,
        },
    )
}

/// The reply once feedback was handed to the database, or could not be.
pub fn feedback_reply(request_id: &str, run_id: &str, submitted: bool) -> (r: Reply)
    ensures
        r@ == if submitted {
            ok_view(run_reply(request_id@, run_id@, "status"@, "submitted"@))
        } else {
            internal_view(request_id@)
        },
{
    if submitted {
        ok(run_reply_json(request_id, run_id, "status", "submitted"))
    } else {
        internal_error(request_id)
    }
}

/// Feedback as the database keeps it.
#[derive(Debug)]
pub struct FeedbackRow {
    pub id: u64,
    pub agent_id: String,
    pub run_id: String,
    pub session_id: String,
    pub rating: u32,
    pub category: String,
    pub feedback: String,
    pub timestamp_micros: i64,
}

/// A whole number as JSON.
pub open spec fn whole_json(n: i64) -> JsonView {
    if n >= 0 {
        JsonView::Number(JsonNumber::Unsigned(n as u64))
    } else {
        JsonView::Number(JsonNumber::Signed(n))
    }
}

fn tell_whole(n: i64) -> (r: Json)
    ensures
        r@ == whole_json(n),
{
    if n >= 0 {
        Json::Number(JsonNumber::Unsigned(n as u64))
    } else {
        Json::Number(JsonNumber::Signed(n))
    }
}

/// What is told of feedback. Who gave it is not.
pub open spec fn feedback_json(f: FeedbackRow) -> JsonView {
    JsonView::Object(
        seq![
            ("id"@, number_view(f.id)),
            ("run_id"@, JsonView::Text(f.run_id@)),
            ("session_id"@, JsonView::Text(f.session_id@)),
            ("rating"@, number_view(f.rating as u64)),
            ("category"@, JsonView::Text(f.category@)),
            ("feedback"@, JsonView::Text(f.feedback@)),
            ("timestamp_micros"@, whole_json(f.timestamp_micros)),
        ],
    )
}

fn tell_feedback(f: &FeedbackRow) -> (r: Json)
    ensures
        r@ == feedback_json(*f),
{
    let mut o = Fields::new();
    o.put("id", Json::number(f.id));
    o.put("run_id", Json::text(f.run_id.as_str()));
    o.put("session_id", Json::text(f.session_id.as_str()));
    o.put("rating", Json::number(f.rating as u64));
    o.put("category", Json::text(f.category.as_str()));
    o.put("feedback", Json::text(f.feedback.as_str()));
    o.put("timestamp_micros", tell_whole(f.timestamp_micros));
    assert(o@ =~= feedback_json(*f)->Object_0);
    o.object()
}

/// What is told of the feedback on some runs, in its order.
pub open spec fn feedback_on(rows: Seq<FeedbackRow>, runs: Set<Seq<char>>) -> Seq<JsonView>
    decreases rows.len(),
{
    if rows.len() == 0 {
        Seq::empty()
    } else {
        let before = feedback_on(rows.drop_last(), runs);
        if runs.contains(rows.last().run_id@) {
            before.push(feedback_json(rows.last()))
        } else {
            before
        }
    }
}

/// What is told of the feedback on some runs.
pub fn feedback_rows_to_json_for_owned_runs(
    rows: &Vec<FeedbackRow>,
    owned_run_ids: &RunIds,
) -> (r: Vec<Json>)
    ensures
        json_views(r@) == feedback_on(rows@, owned_run_ids@),
{
    let mut out: Vec<Json> = Vec::new();
    let mut i: usize = 0;
    assert(json_views(out@) =~= Seq::empty());
    while i < rows.len()
        invariant
            i <= rows@.len(),
            json_views(out@) == feedback_on(rows@.take(i as int), owned_run_ids@),
        decreases rows@.len() - i,
    {
        assert(rows@.take(i + 1).drop_last() =~= rows@.take(i as int));
        if owned_run_ids.contains(rows[i].run_id.as_str()) {
            let ghost before = json_views(out@);
            out.push(tell_feedback(&rows[i]));
            assert(json_views(out@) =~= before.push(feedback_json(rows@[i as int])));
        }
        i += 1;
    }
    assert(rows@.take(i as int) =~= rows@);
    out
}

/// The runs of a caller, by some events.
pub open spec fn runs_of(events: Seq<EventView>, principal: Seq<char>) -> Set<Seq<char>> {
    Set::new(|id: Seq<char>| owned_in(events, id, principal))
}

/// Tells the feedback on a caller's runs. `rows` is what the store of feedback
/// holds, where there is a store and it answers.
pub fn list_feedback(
    request_id: &str,
    principal: &str,
    events: &Vec<TimelineEvent>,
    rows: &Option<Vec<FeedbackRow>>,
) -> (r: Reply)
    ensures
        r@ == match *rows {
            Some(rows) => ok_view(
                JsonView::Object(
                    seq![
                        ("request_id"@, JsonView::Text(request_id@)),
                        (
                            "feedback"@,
                            JsonView::Array(
                                feedback_on(rows@, runs_of(event_views(events@), principal@)),
                            ),
                        ),
                    ],
                ),
            ),
            None => internal_view(request_id@),
        },
{
    let rows = match rows {
        Some(rows) => rows,
        None => return internal_error(request_id),
    };
    let mine = owned_run_ids_from_events(events, principal);
    assert(mine@ =~= runs_of(event_views(events@), principal@));
    let items = feedback_rows_to_json_for_owned_runs(rows, &mine);
    let ghost told = json_views(items@);
    let mut o = Fields::new();
    o.put("request_id", Json::text(request_id));
    o.put("feedback", Json::list(items));
    assert(o@ =~= seq![
        ("request_id"@, JsonView::Text(request_id@)),
        ("feedback"@, JsonView::Array(told)),
    ]);
    ok(o.object())
}

/// Every known model is listed once, the medium ones first, each with its tier
/// and with whether it can be asked now.
pub proof fn every_model_is_listed(
    request_id: Seq<char>,
    medium: Seq<KnownModel>,
    small: Seq<KnownModel>,
    provider: Option<ProviderKind>,
    saturated: bool,
    i: int,
)
    requires
        0 <= i < medium.len() + small.len(),
    ensures
        ({
            let told = models_reply(request_id, medium, small, provider, saturated);
            let items = told.body.items_at("models"@);
            let m = if i < medium.len() {
                medium[i]
            } else {
                small[i - medium.len()]
            };
            &&& told.status == 200
            &&& told.body.text_at("request_id"@) == Some(request_id)
            &&& items is Some && items->0.len() == medium.len() + small.len()
            &&& items->0[i].text_at("id"@) == Some(m.id@)
            &&& items->0[i].text_at("tier"@) == Some(
                if i < medium.len() {
                    "medium"@
                } else {
                    "small"@
                },
            )
            &&& items->0[i].text_at("availability"@) == Some(
                if provider is None {
                    "unavailable"@
                } else if saturated {
                    "saturated"@
                } else {
                    "ready"@
                },
            )
            &&& items->0[i].items_at("providers_available"@) is Some
            &&& items->0[i].items_at("providers_available"@)->0.len() == if provider is None {
                0nat
            } else {
                1
            }
            &&& items->0[i].items_at("fallback_candidates"@) == Some(
                text_views(texts(m.fallback_candidates@)),
            )
        }),
{
    let status = availability_of(provider, saturated);
    let providers = providers_of(provider);
    let all = catalog_of(medium, "medium"@, status, providers) + catalog_of(
        small,
        "small"@,
        status,
        providers,
    );
    reveal_strlit("request_id");
    reveal_strlit("models");
    reveal_strlit("id");
    reveal_strlit("tier");
    reveal_strlit("availability");
    reveal_strlit("providers_available");
    reveal_strlit("fallback_candidates");
    assert("request_id"@.len() == 10);
    assert("models"@.len() == 6);
    assert("id"@.len() == 2);
    assert("tier"@.len() == 4);
    assert("availability"@.len() == 12);
    assert("providers_available"@.len() == 19);
    assert("fallback_candidates"@.len() == 19);
    assert("providers_available"@[0] == 'p' && "fallback_candidates"@[0] == 'f');
    let body = models_reply(request_id, medium, small, provider, saturated).body->Object_0;
    crate::json::field_is_found(body, 0);
    crate::json::field_is_found(body, 1);
    assert(jsons_of::<ModelCatalogItem>(all)[i] == catalog_json(all[i]));
    let fields = catalog_json(all[i])->Object_0;
    crate::json::field_is_found(fields, 0);
    crate::json::field_is_found(fields, 1);
    crate::json::field_is_found(fields, 2);
    crate::json::field_is_found(fields, 3);
    crate::json::field_is_found(fields, 4);
}

/// Feedback is taken exactly on a run that the caller may see, with a rating of
/// at most ten and a category, where there is a place to keep it.
pub proof fn feedback_keeps_its_bounds(
    request_id: Seq<char>,
    run_id: Seq<char>,
    payload: FeedbackRequest,
    snapshot: Option<SnapshotView>,
    principal: Seq<char>,
    configured: bool,
)
    ensures
        feedback_refusal(request_id, run_id, payload, snapshot, principal, configured) is None <==> {
            &&& crate::ids::valid_run_id(run_id)
            &&& payload.rating <= 10
            &&& payload.category@.len() > 0
            &&& visible(snapshot, principal)
            &&& configured
        },
{
}

/// A caller is told the feedback on its own runs, all of it and in the order in
/// which it came.
pub proof fn feedback_on_own_runs_is_told(rows: Seq<FeedbackRow>, row: FeedbackRow, runs: Set<Seq<char>>)
    ensures
        runs.contains(row.run_id@) ==> feedback_on(rows.push(row), runs) == feedback_on(
            rows,
            runs,
        ).push(feedback_json(row)),
        !runs.contains(row.run_id@) ==> feedback_on(rows.push(row), runs) == feedback_on(
            rows,
            runs,
        ),
        feedback_on(Seq::empty(), runs).len() == 0,
{
    assert(rows.push(row).drop_last() =~= rows);
}

/// Feedback is told as it was given.
pub proof fn feedback_is_told_whole(f: FeedbackRow)
    ensures
        ({
            let told = feedback_json(f);
            &&& told.unsigned_at("id"@) == Some(f.id)
            &&& told.text_at("run_id"@) == Some(f.run_id@)
            &&& told.text_at("session_id"@) == Some(f.session_id@)
            &&& told.unsigned_at("rating"@) == Some(f.rating as u64)
            &&& told.text_at("category"@) == Some(f.category@)
            &&& told.text_at("feedback"@) == Some(f.feedback@)
            &&& f.timestamp_micros >= 0 ==> told.unsigned_at("timestamp_micros"@) == Some(
                f.timestamp_micros as u64,
            )
        }),
{
    reveal_strlit("id");
    reveal_strlit("run_id");
    reveal_strlit("session_id");
    reveal_strlit("rating");
    reveal_strlit("category");
    reveal_strlit("feedback");
    reveal_strlit("timestamp_micros");
    assert("id"@.len() == 2);
    assert("run_id"@.len() == 6);
    assert("session_id"@.len() == 10);
    assert("rating"@.len() == 6);
    assert("category"@.len() == 8);
    assert("feedback"@.len() == 8);
    assert("timestamp_micros"@.len() == 16);
    assert("run_id"@[1] == 'u' && "rating"@[1] == 'a');
    assert("category"@[0] == 'c' && "feedback"@[0] == 'f');
    let fields = feedback_json(f)->Object_0;
    crate::json::field_is_found(fields, 0);
    crate::json::field_is_found(fields, 1);
    crate::json::field_is_found(fields, 2);
    crate::json::field_is_found(fields, 3);
    crate::json::field_is_found(fields, 4);
    crate::json::field_is_found(fields, 5);
    crate::json::field_is_found(fields, 6);
}

} // verus!
