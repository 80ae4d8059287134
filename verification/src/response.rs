//! Replies: a status code and a JSON body.

use vstd::prelude::*;

use crate::json::{jsons_of, list_of, Fields, Json, JsonView, ToJson};
use crate::models::FieldError;
use crate::sort::views;

verus! {

/// A status code and a JSON body.
#[derive(Debug)]
pub struct Reply {
    pub status: u16,
    pub body: Json,
}

/// What a reply is.
pub ghost struct ReplyView {
    pub status: u16,
    pub body: JsonView,
}

impl View for Reply {
    type V = ReplyView;

    open spec fn view(&self) -> ReplyView {
        ReplyView { status: self.status, body: self.body@ }
    }
}

/// What is wrong with one field, as JSON.
pub open spec fn detail_view(field: Seq<char>, message: Seq<char>) -> JsonView {
    JsonView::Object(
        seq![("field"@, JsonView::Text(field)), ("message"@, JsonView::Text(message))],
    )
}

impl View for FieldError {
    type V = (Seq<char>, Seq<char>);

    open spec fn view(&self) -> (Seq<char>, Seq<char>) {
        (self.field@, self.message@)
    }
}

impl ToJson for FieldError {
    open spec fn json_of(v: (Seq<char>, Seq<char>)) -> JsonView {
        detail_view(v.0, v.1)
    }

    fn to_json(&self) -> (r: Json) {
        let mut o = Fields::new();
        o.put("field", Json::text(self.field));
        o.put("message", Json::text(self.message.as_str()));
        assert(o@ =~= Self::json_of(self@)->Object_0);
        o.object()
    }
}

/// What is wrong with some fields, as JSON.
pub open spec fn detail_views(details: Seq<FieldError>) -> Seq<JsonView> {
    jsons_of::<FieldError>(views(details))
}

/// An error body.
pub open spec fn error_view(
    code: Seq<char>,
    message: Seq<char>,
    request_id: Seq<char>,
    details: Seq<JsonView>,
) -> JsonView {
    JsonView::Object(
        seq![
            (
                "error"@,
                JsonView::Object(
                    seq![
                        ("code"@, JsonView::Text(code)),
                        ("message"@, JsonView::Text(message)),
                        ("request_id"@, JsonView::Text(request_id)),
                        ("details"@, JsonView::Array(details)),
                    ],
                ),
            ),
        ],
    )
}

/// The reply to a request that was carried out.
pub open spec fn ok_view(body: JsonView) -> ReplyView {
    ReplyView { status: 200, body }
}

/// The reply to a request that breaks a rule.
pub open spec fn invalid_view(
    request_id: Seq<char>,
    message: Seq<char>,
    details: Seq<JsonView>,
) -> ReplyView {
    ReplyView { status: 422, body: error_view("validation_error"@, message, request_id, details) }
}

/// The reply to a request that breaks a rule in one field.
pub open spec fn invalid_field_view(
    request_id: Seq<char>,
    message: Seq<char>,
    field: Seq<char>,
    problem: Seq<char>,
) -> ReplyView {
    invalid_view(request_id, message, seq![detail_view(field, problem)])
}

/// The reply to a request for something that is not there.
pub open spec fn not_found_view(
    request_id: Seq<char>,
    message: Seq<char>,
    details: Seq<JsonView>,
) -> ReplyView {
    ReplyView { status: 404, body: error_view("not_found"@, message, request_id, details) }
}

/// The reply to a request that the present state does not allow.
pub open spec fn conflict_view(
    request_id: Seq<char>,
    message: Seq<char>,
    details: Seq<JsonView>,
) -> ReplyView {
    ReplyView { status: 409, body: error_view("conflict"@, message, request_id, details) }
}

/// The reply when the server failed. What failed is not told.
pub open spec fn internal_view(request_id: Seq<char>) -> ReplyView {
    ReplyView {
        status: 500,
        body: error_view("internal_error"@, "internal server error"@, request_id, Seq::empty()),
    }
}

/// What is wrong with one field.
pub fn field_error(field: &'static str, message: String) -> (r: FieldError)
    ensures
        r.field@ == field@,
        r.message@ == message@,
{
    FieldError { field, message }
}

/// A reply that tells of an error.
pub fn structured_error(
    request_id: &str,
    status: u16,
    code: &'static str,
    message: &str,
    details: &Vec<FieldError>,
) -> (r: Reply)
    ensures
        r@ == (ReplyView {
            status,
            body: error_view(code@, message@, request_id@, detail_views(details@)),
        }),
{
    let mut inner = Fields::new();
    inner.put("code", Json::text(code));
    inner.put("message", Json::text(message));
    inner.put("request_id", Json::text(request_id));
    inner.put("details", list_of(details));
    let mut outer = Fields::new();
    let ghost want = error_view(code@, message@, request_id@, detail_views(details@));
    assert(inner@ =~= want->Object_0[0].1->Object_0);
    outer.put("error", inner.object());
    assert(outer@ =~= want->Object_0);
    Reply { status, body: outer.object() }
}

/// The reply to a request that was carried out.
pub fn ok(value: Json) -> (r: Reply)
    ensures
        r@ == ok_view(value@),
{
    Reply { status: 200, body: value }
}

/// The reply to a request that breaks a rule.
pub fn validation_error(request_id: &str, message: &str, details: &Vec<FieldError>) -> (r: Reply)
    ensures
        r@ == invalid_view(request_id@, message@, detail_views(details@)),
{
    structured_error(request_id, 422, "validation_error", message, details)
}

/// The reply to a request for something that is not there.
pub fn not_found_error(request_id: &str, message: &str, details: &Vec<FieldError>) -> (r: Reply)
    ensures
        r@ == not_found_view(request_id@, message@, detail_views(details@)),
{
    structured_error(request_id, 404, "not_found", message, details)
}

/// The reply to a request that the present state does not allow.
pub fn conflict_error(request_id: &str, message: &str, details: &Vec<FieldError>) -> (r: Reply)
    ensures
        r@ == conflict_view(request_id@, message@, detail_views(details@)),
{
    structured_error(request_id, 409, "conflict", message, details)
}

/// The reply when the server failed. What failed goes to the log, not here.
pub fn internal_error(request_id: &str) -> (r: Reply)
    ensures
        r@ == internal_view(request_id@),
{
    let none: Vec<FieldError> = Vec::new();
    let r = structured_error(request_id, 500, "internal_error", "internal server error", &none);
    assert(detail_views(none@) =~= Seq::empty());
    r
}

fn one_detail(field: &'static str, problem: String) -> (r: Vec<FieldError>)
    ensures
        detail_views(r@) == seq![detail_view(field@, problem@)],
{
    let mut details: Vec<FieldError> = Vec::new();
    let ghost text = problem@;
    details.push(field_error(field, problem));
    assert(detail_views(details@) =~= seq![detail_view(field@, text)]);
    details
}

/// The reply to a request that breaks a rule in one field.
pub fn invalid_field(
    request_id: &str,
    message: &str,
    field: &'static str,
    problem: String,
) -> (r: Reply)
    ensures
        r@ == invalid_field_view(request_id@, message@, field@, problem@),
{
    validation_error(request_id, message, &one_detail(field, problem))
}

/// The reply to a request for something that is not there, with one detail.
pub fn missing_field(
    request_id: &str,
    message: &str,
    field: &'static str,
    problem: String,
) -> (r: Reply)
    ensures
        r@ == not_found_view(request_id@, message@, seq![detail_view(field@, problem@)]),
{
    not_found_error(request_id, message, &one_detail(field, problem))
}

/// The reply to a request that the present state does not allow, with one
/// detail.
pub fn conflict_field(
    request_id: &str,
    message: &str,
    field: &'static str,
    problem: String,
) -> (r: Reply)
    ensures
        r@ == conflict_view(request_id@, message@, seq![detail_view(field@, problem@)]),
{
    conflict_error(request_id, message, &one_detail(field, problem))
}

/// A refusal tells its code, what it is about, whose request it answers and, of
/// a field, what is wrong with it.
pub proof fn refusals_tell_what_is_wrong(
    request_id: Seq<char>,
    message: Seq<char>,
    field: Seq<char>,
    problem: Seq<char>,
)
    ensures
        ({
            let reply = invalid_field_view(request_id, message, field, problem);
            let error = reply.body.get("error"@);
            &&& reply.status == 422
            &&& error is Some
            &&& error->0.text_at("code"@) == Some("validation_error"@)
            &&& error->0.text_at("message"@) == Some(message)
            &&& error->0.text_at("request_id"@) == Some(request_id)
            &&& error->0.items_at("details"@) is Some && error->0.items_at("details"@)->0.len() == 1
            &&& error->0.items_at("details"@)->0[0].text_at("field"@) == Some(field)
            &&& error->0.items_at("details"@)->0[0].text_at("message"@) == Some(problem)
        }),
{
    let details = seq![detail_view(field, problem)];
    lemma_errors_are_told("validation_error"@, message, request_id, details);
    reveal_strlit("field");
    reveal_strlit("message");
    assert("field"@.len() == 5);
    assert("message"@.len() == 7);
    let fields = detail_view(field, problem)->Object_0;
    crate::json::field_is_found(fields, 0);
    crate::json::field_is_found(fields, 1);
}

proof fn lemma_errors_are_told(
    code: Seq<char>,
    message: Seq<char>,
    request_id: Seq<char>,
    details: Seq<JsonView>,
)
    ensures
        ({
            let error = error_view(code, message, request_id, details).get("error"@);
            &&& error is Some
            &&& error->0.text_at("code"@) == Some(code)
            &&& error->0.text_at("message"@) == Some(message)
            &&& error->0.text_at("request_id"@) == Some(request_id)
            &&& error->0.items_at("details"@) == Some(details)
        }),
{
    reveal_strlit("error");
    reveal_strlit("code");
    reveal_strlit("message");
    reveal_strlit("request_id");
    reveal_strlit("details");
    assert("error"@.len() == 5);
    assert("code"@.len() == 4);
    assert("message"@.len() == 7);
    assert("request_id"@.len() == 10);
    assert("details"@.len() == 7);
    assert("message"@[0] == 'm' && "details"@[0] == 'd');
    let outer = error_view(code, message, request_id, details)->Object_0;
    crate::json::field_is_found(outer, 0);
    let fields = outer[0].1->Object_0;
    crate::json::field_is_found(fields, 0);
    crate::json::field_is_found(fields, 1);
    crate::json::field_is_found(fields, 2);
    crate::json::field_is_found(fields, 3);
}

/// What is not there, what stands against a request and what went wrong inside
/// are told apart by their status and code.
pub proof fn replies_are_told_apart(request_id: Seq<char>, message: Seq<char>, details: Seq<JsonView>)
    ensures
        not_found_view(request_id, message, details).status == 404,
        conflict_view(request_id, message, details).status == 409,
        internal_view(request_id).status == 500,
        not_found_view(request_id, message, details).body.get("error"@)->0.text_at("code"@) == Some(
            "not_found"@,
        ),
        conflict_view(request_id, message, details).body.get("error"@)->0.text_at("code"@) == Some(
            "conflict"@,
        ),
        internal_view(request_id).body.get("error"@)->0.text_at("code"@) == Some(
            "internal_error"@,
        ),
        internal_view(request_id).body.get("error"@)->0.text_at("message"@) == Some(
            "internal server error"@,
        ),
        not_found_view(request_id, message, details).body.get("error"@)->0.text_at("message"@)
            == Some(message),
        conflict_view(request_id, message, details).body.get("error"@)->0.text_at("message"@)
            == Some(message),
        ok_view(JsonView::Null).status == 200,
{
    lemma_errors_are_told("not_found"@, message, request_id, details);
    lemma_errors_are_told("conflict"@, message, request_id, details);
    lemma_errors_are_told("internal_error"@, "internal server error"@, request_id, Seq::empty());
}

} // verus!
