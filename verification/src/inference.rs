//! Requests for inference, one at a time and in batches.

use vstd::prelude::*;
use vstd::utf8::encode_utf8;

use crate::digits::{decimal, push_decimal};
use crate::ieee::{single, Single};
use crate::inference_metrics::{InferenceMetrics, ProviderKind};
use crate::json::{
    compact_of, compact_opt, number_view, text_or_null, Fields, Json, JsonView, ToJson,
};
use crate::models::{
    InferBatchItemError, InferBatchItemResult, InferRequest, InferResponse, TokenUsage,
};
use crate::response::{
    internal_error, internal_view, invalid_field, invalid_field_view, ok, ok_view, Reply,
    ReplyView,
};
use crate::runs::{
    change_refusal, check_change, opt_snapshot, EventAppend, RunSnapshot, SnapshotView,
};
use crate::text::{
    with_tail, lowered, opt_str, opt_text, owned, owned_opt, same, to_lower, trim, trimmed,
};

verus! {

/// The provider that a request names; `None` where it names none that is known.
pub open spec fn provider_of(raw: Option<Seq<char>>) -> Option<ProviderKind> {
    match raw {
        None => Some(ProviderKind::Vllm),
        Some(s) => {
            let name = lowered(s);
            if name == "vllm"@ {
                Some(ProviderKind::Vllm)
            } else if name == "sglang"@ {
                Some(ProviderKind::Sglang)
            } else if name == "gemini"@ {
                Some(ProviderKind::Gemini)
            } else {
                None
            }
        },
    }
}

/// What is said of a name that is no provider's.
pub const PROVIDER_PROBLEM: &'static str = "primary_provider must be one of: vllm, sglang, gemini";

/// The provider that a request names, in upper or lower case.
pub fn parse_provider(raw: Option<&str>) -> (r: Result<ProviderKind, &'static str>)
    ensures
        match r {
            Ok(p) => provider_of(opt_str(raw)) == Some(p),
            Err(e) => provider_of(opt_str(raw)) is None && e@ == PROVIDER_PROBLEM@,
        },
{
    match raw {
        None => Ok(ProviderKind::Vllm),
        Some(s) => {
            let name = to_lower(s);
            if same(name.as_str(), "vllm") {
                Ok(ProviderKind::Vllm)
            } else if same(name.as_str(), "sglang") {
                Ok(ProviderKind::Sglang)
            } else if same(name.as_str(), "gemini") {
                Ok(ProviderKind::Gemini)
            } else {
                Err(PROVIDER_PROBLEM)
            }
        },
    }
}

/// A request as a provider gets it.
#[derive(Debug)]
pub struct InferenceRequest {
    pub model: String,
    pub prompt: String,
    pub max_tokens: u32,
    pub temperature: Single,
    pub timeout_ms: u64,
    pub allow_fallback: bool,
    /// The JSON text of the schema that the output must follow.
    pub guided_json: Option<String>,
}

/// A request that was checked.
#[derive(Debug)]
pub struct PreparedInferRequest {
    pub run_id: Option<String>,
    pub request: InferenceRequest,
    pub primary_provider: ProviderKind,
}

/// What a number is where a request gives none.
pub open spec fn u32_or(n: Option<u32>, default: u32) -> u32 {
    match n {
        Some(v) => v,
        None => default,
    }
}

/// What a number is where a request gives none.
pub open spec fn u64_or(n: Option<u64>, default: u64) -> u64 {
    match n {
        Some(v) => v,
        None => default,
    }
}

/// The temperature of a request.
pub open spec fn temperature_of(t: Option<Single>) -> Single {
    match t {
        Some(v) => v,
        None => single(0),
    }
}

/// The refusal of a request for inference, where it is refused. `model` is what
/// the model of the request was found to be.
pub open spec fn infer_refusal(
    request_id: Seq<char>,
    context: Seq<char>,
    payload: InferRequest,
    model: Result<String, String>,
    snapshot: Option<SnapshotView>,
    principal: Seq<char>,
) -> Option<ReplyView> {
    let run = match payload.run_id {
        Some(run_id) => change_refusal(
            request_id,
            context,
            "cannot run inference on terminal run"@,
            run_id@,
            snapshot,
            principal,
        ),
        None => None,
    };
    let prompt = trimmed(payload.prompt@);
    let max_tokens = u32_or(payload.max_tokens, 256);
    let timeout_ms = u64_or(payload.timeout_ms, 20_000);
    let t = temperature_of(payload.temperature);
    if run is Some {
        run
    } else if model is Err {
        Some(invalid_field_view(request_id, context, "model"@, model->Err_0@))
    } else if prompt.len() == 0 {
        Some(invalid_field_view(request_id, context, "prompt"@, "prompt must not be empty"@))
    } else if encode_utf8(prompt).len() > 32_768 {
        Some(
            invalid_field_view(
                request_id,
                context,
                "prompt"@,
                "prompt length must be <= 32768 bytes"@,
            ),
        )
    } else if max_tokens == 0 || max_tokens > 4096 {
        Some(
            invalid_field_view(
                request_id,
                context,
                "max_tokens"@,
                "max_tokens must be in [1, 4096]"@,
            ),
        )
    } else if !(single(0).le(t) && t.le(single(0x4000_0000))) {
        Some(
            invalid_field_view(
                request_id,
                context,
                "temperature"@,
                "temperature must be in [0.0, 2.0]"@,
            ),
        )
    } else if timeout_ms == 0 || timeout_ms > 120_000 {
        Some(
            invalid_field_view(
                request_id,
                context,
                "timeout_ms"@,
                "timeout_ms must be in [1, 120000]"@,
            ),
        )
    } else if provider_of(opt_text(payload.primary_provider)) is None {
        Some(
            invalid_field_view(request_id, context, "primary_provider"@, PROVIDER_PROBLEM@),
        )
    } else {
        None
    }
}

/// A checked request is the one that was made.
pub open spec fn is_prepared(
    p: PreparedInferRequest,
    payload: InferRequest,
    model: Result<String, String>,
) -> bool {
    &&& opt_text(p.run_id) == opt_text(payload.run_id)
    &&& p.request.model@ == model->Ok_0@
    &&& p.request.prompt@ == trimmed(payload.prompt@)
    &&& p.request.max_tokens == u32_or(payload.max_tokens, 256)
    &&& p.request.temperature == temperature_of(payload.temperature)
    &&& p.request.timeout_ms == u64_or(payload.timeout_ms, 20_000)
    &&& p.request.allow_fallback == (payload.allow_fallback != Some(false))
    &&& opt_text(p.request.guided_json) == compact_of(opt_text(payload.output_schema))
    &&& Some(p.primary_provider) == provider_of(opt_text(payload.primary_provider))
}

/// Checks a request for inference. `model` is what the model of the request was
/// found to be, and `snapshot` tells of the run that it names.
pub fn validate_infer_request(
    request_id: &str,
    context: &str,
    payload: &InferRequest,
    model: &Result<String, String>,
    snapshot: &Option<RunSnapshot>,
    principal: &str,
) -> (r: Result<PreparedInferRequest, Reply>)
    ensures
        ({
            let refusal = infer_refusal(
                request_id@,
                context@,
                *payload,
                *model,
                opt_snapshot(*snapshot),
                principal@,
            );
            match r {
                Ok(p) => refusal is None && is_prepared(p, *payload, *model),
                Err(reply) => refusal == Some(reply@),
            }
        }),
{
    match &payload.run_id {
        Some(run_id) => match check_change(
            request_id,
            context,
            "cannot run inference on terminal run",
            run_id.as_str(),
            snapshot,
            principal,
        ) {
            Ok(_) => {},
            Err(reply) => return Err(reply),
        },
        None => {},
    }
    let model = match model {
        Ok(m) => owned(m.as_str()),
        Err(problem) => return Err(
            invalid_field(request_id, context, "model", owned(problem.as_str())),
        ),
    };
    let prompt = trim(payload.prompt.as_str());
    if prompt.as_str().is_empty() {
        return Err(invalid_field(request_id, context, "prompt", owned("prompt must not be empty")));
    }
    if prompt.as_str().as_bytes().len() > 32_768 {
        return Err(
            invalid_field(
                request_id,
                context,
                "prompt",
                owned("prompt length must be <= 32768 bytes"),
            ),
        );
    }
    let max_tokens: u32 = match payload.max_tokens {
        Some(n) => n,
        None => 256,
    };
    if max_tokens == 0 || max_tokens > 4096 {
        return Err(
            invalid_field(
                request_id,
                context,
                "max_tokens",
                owned("max_tokens must be in [1, 4096]"),
            ),
        );
    }
    let temperature = match payload.temperature {
        Some(t) => t,
        None => Single { bits: 0 },
    };
    if !temperature.within(Single { bits: 0 }, Single { bits: 0x4000_0000 }) {
        return Err(
            invalid_field(
                request_id,
                context,
                "temperature",
                owned("temperature must be in [0.0, 2.0]"),
            ),
        );
    }
    let timeout_ms: u64 = match payload.timeout_ms {
        Some(n) => n,
        None => 20_000,
    };
    if timeout_ms == 0 || timeout_ms > 120_000 {
        return Err(
            invalid_field(
                request_id,
                context,
                "timeout_ms",
                owned("timeout_ms must be in [1, 120000]"),
            ),
        );
    }
    let named = match &payload.primary_provider {
        Some(p) => parse_provider(Some(p.as_str())),
        None => parse_provider(None),
    };
    let primary_provider = match named {
        Ok(p) => p,
        Err(problem) => return Err(
            invalid_field(request_id, context, "primary_provider", owned(problem)),
        ),
    };
    let allow_fallback = match payload.allow_fallback {
        Some(b) => b,
        None => true,
    };
    Ok(
        PreparedInferRequest {
            run_id: owned_opt(&payload.run_id),
            request: InferenceRequest {
                model,
                prompt,
                max_tokens,
                temperature,
                timeout_ms,
                allow_fallback,
                guided_json: compact_opt(&payload.output_schema),
            },
            primary_provider,
        },
    )
}

// ------------------------------------------------------------- execution
/// What a provider answered.
#[derive(Debug)]
pub struct ProviderAnswer {
    pub provider: ProviderKind,
    pub model: String,
    pub fallback_used: bool,
    pub output_text: String,
    pub finish_reason: Option<String>,
    pub inference_latency_ms: u64,
    pub usage: TokenUsage,
}

/// Why a provider gave no answer.
#[derive(Debug)]
pub enum InferFailure {
    UnsupportedModel,
    HttpStatus(u16),
    Transport(String),
    InvalidResponse(String),
    /// The worker that made the call broke down, for this reason.
    Broke(String),
}

/// What came of a call to a provider.
#[derive(Debug)]
pub enum InferOutcome {
    Answered(ProviderAnswer),
    Failed(InferFailure),
}

/// Why a request for inference was not carried out.
#[derive(Debug)]
pub struct InferExecutionError {
    pub code: &'static str,
    pub message: String,
}

impl View for InferExecutionError {
    type V = (Seq<char>, Seq<char>);

    open spec fn view(&self) -> (Seq<char>, Seq<char>) {
        (self.code@, self.message@)
    }
}

/// What is said of a failure: a code and a message.
pub open spec fn failure_view(f: InferFailure) -> (Seq<char>, Seq<char>) {
    match f {
        InferFailure::UnsupportedModel => (
            "validation_error"@,
            "model is not in the supported model contract"@,
        ),
        InferFailure::HttpStatus(code) => (
            "provider_http_status"@,
            "inference provider returned http status "@ + decimal(code as nat),
        ),
        InferFailure::Transport(message) => (
            "provider_transport"@,
            "inference provider transport error: "@ + message@,
        ),
        InferFailure::InvalidResponse(message) => (
            "provider_invalid_response"@,
            "inference provider invalid response: "@ + message@,
        ),
        InferFailure::Broke(message) => (
            "internal_error"@,
            "inference worker join failure: "@ + message@,
        ),
    }
}

/// What is said of a failure.
pub fn map_provider_execution_error(f: &InferFailure) -> (r: InferExecutionError)
    ensures
        r@ == failure_view(*f),
{
    match f {
        InferFailure::UnsupportedModel => InferExecutionError {
            code: "validation_error",
            message: owned("model is not in the supported model contract"),
        },
        InferFailure::HttpStatus(code) => {
            let mut message = owned("inference provider returned http status ");
            push_decimal(&mut message, *code as u64);
            InferExecutionError { code: "provider_http_status", message }
        },
        InferFailure::Transport(why) => InferExecutionError {
            code: "provider_transport",
            message: with_tail("inference provider transport error: ", why.as_str()),
        },
        InferFailure::InvalidResponse(why) => InferExecutionError {
            code: "provider_invalid_response",
            message: with_tail("inference provider invalid response: ", why.as_str()),
        },
        InferFailure::Broke(why) => InferExecutionError {
            code: "internal_error",
            message: with_tail("inference worker join failure: ", why.as_str()),
        },
    }
}

/// The event on an answer.
pub open spec fn completed_payload(
    request_id: Seq<char>,
    prompt: Seq<char>,
    a: ProviderAnswer,
) -> JsonView {
    JsonView::Object(
        seq![
            ("request_id"@, JsonView::Text(request_id)),
            ("provider"@, JsonView::Text(a.provider.label())),
            ("model"@, JsonView::Text(a.model@)),
            ("fallback_used"@, JsonView::Bool(a.fallback_used)),
            ("prompt_bytes"@, number_view(encode_utf8(prompt).len() as u64)),
            ("output_bytes"@, number_view(encode_utf8(a.output_text@).len() as u64)),
        ],
    )
}

/// What a response holds.
pub ghost struct InferView {
    pub request_id: Seq<char>,
    pub run_id: Option<Seq<char>>,
    pub provider: Seq<char>,
    pub model: Seq<char>,
    pub fallback_used: bool,
    pub output_text: Seq<char>,
    pub finish_reason: Option<Seq<char>>,
    pub inference_latency_ms: u64,
    pub tokens: TokenUsage,
}

impl View for InferResponse {
    type V = InferView;

    open spec fn view(&self) -> InferView {
        InferView {
            request_id: self.request_id@,
            run_id: opt_text(self.run_id),
            provider: self.provider@,
            model: self.model@,
            fallback_used: self.fallback_used,
            output_text: self.output_text@,
            finish_reason: opt_text(self.finish_reason),
            inference_latency_ms: self.inference_latency_ms,
            tokens: self.tokens,
        }
    }
}

/// The response with an answer.
pub open spec fn answer_view(
    request_id: Seq<char>,
    run_id: Option<Seq<char>>,
    a: ProviderAnswer,
) -> InferView {
    InferView {
        request_id,
        run_id,
        provider: a.provider.label(),
        model: a.model@,
        fallback_used: a.fallback_used,
        output_text: a.output_text@,
        finish_reason: opt_text(a.finish_reason),
        inference_latency_ms: a.inference_latency_ms,
        tokens: a.usage,
    }
}

/// What an answered request leads to: an event where it names a run, and the
/// response.
#[derive(Debug)]
pub struct InferDone {
    pub append: Option<EventAppend>,
    pub response: InferResponse,
}

/// Counts what came of a call and makes the response of it. The call took
/// `elapsed_ms`.
pub fn finish_infer(
    request_id: &str,
    prepared: &PreparedInferRequest,
    outcome: InferOutcome,
    elapsed_ms: u64,
    metrics: &mut InferenceMetrics,
) -> (r: Result<InferDone, InferExecutionError>)
    requires
        old(metrics).wf(),
    ensures
        final(metrics).wf(),
        match outcome {
            InferOutcome::Answered(a) => {
                &&& forall|p: ProviderKind|
                    #[trigger] final(metrics).counts(p) == if p == a.provider {
                        old(metrics).counts(p).with_success(elapsed_ms, a.fallback_used, a.usage)
                    } else {
                        old(metrics).counts(p)
                    }
                &&& r is Ok
                &&& r->Ok_0.response@ == answer_view(request_id@, opt_text(prepared.run_id), a)
                &&& match r->Ok_0.append {
                    Some(e) => prepared.run_id is Some && e@ == (
                        "inference_completed"@,
                        completed_payload(request_id@, prepared.request.prompt@, a),
                    ),
                    None => prepared.run_id is None,
                }
            },
            InferOutcome::Failed(f) => {
                &&& forall|p: ProviderKind|
                    #[trigger] final(metrics).counts(p) == if p == prepared.primary_provider {
                        old(metrics).counts(p).with_error(elapsed_ms)
                    } else {
                        old(metrics).counts(p)
                    }
                &&& r is Err
                &&& r->Err_0@ == failure_view(f)
            },
        },
{
    match outcome {
        InferOutcome::Failed(f) => {
            metrics.record_error(prepared.primary_provider, elapsed_ms);
            Err(map_provider_execution_error(&f))
        },
        InferOutcome::Answered(a) => {
            metrics.record_success(a.provider, elapsed_ms, a.fallback_used, a.usage);
            let append = match &prepared.run_id {
                Some(_) => {
                    let mut o = Fields::new();
                    o.put("request_id", Json::text(request_id));
                    o.put("provider", Json::text(a.provider.name()));
                    o.put("model", Json::text(a.model.as_str()));
                    o.put("fallback_used", Json::Bool(a.fallback_used));
                    let prompt_bytes: usize = prepared.request.prompt.as_str().as_bytes().len();
                    let output_bytes: usize = a.output_text.as_str().as_bytes().len();
                    o.put("prompt_bytes", Json::number(prompt_bytes as u64));
                    o.put("output_bytes", Json::number(output_bytes as u64));
                    assert(o@ =~= completed_payload(
                        request_id@,
                        prepared.request.prompt@,
                        a,
                    )->Object_0);
                    Some(EventAppend { kind: "inference_completed", payload: o.object() })
                },
                None => None,
            };
            let response = InferResponse {
                request_id: owned(request_id),
                run_id: owned_opt(&prepared.run_id),
                provider: owned(a.provider.name()),
                model: owned(a.model.as_str()),
                fallback_used: a.fallback_used,
                output_text: owned(a.output_text.as_str()),
                finish_reason: owned_opt(&a.finish_reason),
                inference_latency_ms: a.inference_latency_ms,
                tokens: a.usage,
            };
            Ok(InferDone { append, response })
        },
    }
}

/// Tokens as JSON.
pub open spec fn usage_json(u: TokenUsage) -> JsonView {
    JsonView::Object(
        seq![
            ("prompt_tokens"@, number_view(u.prompt_tokens as u64)),
            ("completion_tokens"@, number_view(u.completion_tokens as u64)),
            ("thinking_tokens"@, number_view(u.thinking_tokens as u64)),
            ("total_tokens"@, number_view(u.total_tokens as u64)),
        ],
    )
}

fn tell_usage(u: TokenUsage) -> (r: Json)
    ensures
        r@ == usage_json(u),
{
    let mut o = Fields::new();
    o.put("prompt_tokens", Json::number(u.prompt_tokens as u64));
    o.put("completion_tokens", Json::number(u.completion_tokens as u64));
    o.put("thinking_tokens", Json::number(u.thinking_tokens as u64));
    o.put("total_tokens", Json::number(u.total_tokens as u64));
    assert(o@ =~= usage_json(u)->Object_0);
    o.object()
}

/// A response as JSON.
pub open spec fn infer_json(v: InferView) -> JsonView {
    JsonView::Object(
        seq![
            ("request_id"@, JsonView::Text(v.request_id)),
            ("run_id"@, text_or_null(v.run_id)),
            ("provider"@, JsonView::Text(v.provider)),
            ("model"@, JsonView::Text(v.model)),
            ("fallback_used"@, JsonView::Bool(v.fallback_used)),
            ("output_text"@, JsonView::Text(v.output_text)),
            ("finish_reason"@, text_or_null(v.finish_reason)),
            ("inference_latency_ms"@, number_view(v.inference_latency_ms)),
            ("tokens"@, usage_json(v.tokens)),
        ],
    )
}

impl ToJson for InferResponse {
    open spec fn json_of(v: InferView) -> JsonView {
        infer_json(v)
    }

    fn to_json(&self) -> (r: Json) {
        let mut o = Fields::new();
        o.put("request_id", Json::text(self.request_id.as_str()));
        o.put("run_id", Json::text_or_null(&self.run_id));
        o.put("provider", Json::text(self.provider.as_str()));
        o.put("model", Json::text(self.model.as_str()));
        o.put("fallback_used", Json::Bool(self.fallback_used));
        o.put("output_text", Json::text(self.output_text.as_str()));
        o.put("finish_reason", Json::text_or_null(&self.finish_reason));
        o.put("inference_latency_ms", Json::number(self.inference_latency_ms));
        o.put("tokens", tell_usage(self.tokens));
        assert(o@ =~= infer_json(self@)->Object_0);
        o.object()
    }
}

/// The reply to a request that was not carried out: it was invalid where its
/// model is unknown, else the server failed.
pub open spec fn infer_error_reply(
    request_id: Seq<char>,
    e: (Seq<char>, Seq<char>),
) -> ReplyView {
    if e.0 == "validation_error"@ {
        invalid_field_view(request_id, "invalid infer payload"@, "model"@, e.1)
    } else {
        internal_view(request_id)
    }
}

/// The reply to a request that was not carried out.
pub fn infer_execution_error_to_response(request_id: &str, err: &InferExecutionError) -> (r: Reply)
    ensures
        r@ == infer_error_reply(request_id@, err@),
{
    if same(err.code, "validation_error") {
        invalid_field(request_id, "invalid infer payload", "model", owned(err.message.as_str()))
    } else {
        internal_error(request_id)
    }
}

/// The reply to a request for inference, once it was carried out or was not.
pub fn infer(request_id: &str, result: &Result<InferResponse, InferExecutionError>) -> (r: Reply)
    ensures
        r@ == match *result {
            Ok(response) => ok_view(infer_json(response@)),
            Err(e) => infer_error_reply(request_id@, e@),
        },
{
    match result {
        Ok(response) => ok(response.to_json()),
        Err(e) => infer_execution_error_to_response(request_id, e),
    }
}

/// What is said where there is no provider to ask.
pub fn no_provider_error() -> (r: InferExecutionError)
    ensures
        r@ == ("internal_error"@, "inference providers are not configured"@),
{
    InferExecutionError {
        code: "internal_error",
        message: owned("inference providers are not configured"),
    }
}

/// What is said where an answer could not be logged.
pub fn not_logged_error(why: &str) -> (r: InferExecutionError)
    ensures
        r@ == ("internal_error"@, "failed to append inference event: "@ + why@),
{
    InferExecutionError {
        code: "internal_error",
        message: with_tail("failed to append inference event: ", why),
    }
}

// ----------------------------------------------------------------- batch
/// What is said of a batch in replies.
pub const BATCH_CONTEXT: &'static str = "invalid infer-batch payload";

/// How many requests of a batch are in work at once.
pub open spec fn parallel_of(max_parallel: Option<usize>) -> usize {
    match max_parallel {
        Some(n) => n,
        None => 8,
    }
}

/// The refusal of a batch, where it is refused for its size.
pub open spec fn batch_refusal(
    request_id: Seq<char>,
    total: nat,
    max_parallel: Option<usize>,
) -> Option<ReplyView> {
    if total == 0 || total > 256 {
        Some(
            invalid_field_view(
                request_id,
                BATCH_CONTEXT@,
                "requests"@,
                "requests length must be in [1, 256]"@,
            ),
        )
    } else if !(1 <= parallel_of(max_parallel) <= 64) {
        Some(
            invalid_field_view(
                request_id,
                BATCH_CONTEXT@,
                "max_parallel"@,
                "max_parallel must be in [1, 64]"@,
            ),
        )
    } else {
        None
    }
}

/// How many requests of a batch may be in work at once: no more than asked for,
/// and no more than there are.
pub fn check_batch(request_id: &str, total: usize, max_parallel: Option<usize>) -> (r: Result<
    usize,
    Reply,
>)
    ensures
        match r {
            Ok(n) => {
                &&& batch_refusal(request_id@, total as nat, max_parallel) is None
                &&& n == if parallel_of(max_parallel) < total {
                    parallel_of(max_parallel)
                } else {
                    total
                }
            },
            Err(reply) => batch_refusal(request_id@, total as nat, max_parallel) == Some(reply@),
        },
{
    if total == 0 || total > 256 {
        return Err(
            invalid_field(
                request_id,
                BATCH_CONTEXT,
                "requests",
                owned("requests length must be in [1, 256]"),
            ),
        );
    }
    let parallel: usize = match max_parallel {
        Some(n) => n,
        None => 8,
    };
    if parallel < 1 || parallel > 64 {
        return Err(
            invalid_field(
                request_id,
                BATCH_CONTEXT,
                "max_parallel",
                owned("max_parallel must be in [1, 64]"),
            ),
        );
    }
    if parallel < total {
        Ok(parallel)
    } else {
        Ok(total)
    }
}

/// A request of a batch, with what its model was found to be and what is known
/// of the run that it names.
#[derive(Debug)]
pub struct BatchItem {
    pub payload: InferRequest,
    pub model: Result<String, String>,
    pub snapshot: Option<RunSnapshot>,
}

/// The refusal of the first request of a batch that is refused.
pub open spec fn items_refusal(
    request_id: Seq<char>,
    items: Seq<BatchItem>,
    principal: Seq<char>,
) -> Option<ReplyView>
    decreases items.len(),
{
    if items.len() == 0 {
        None
    } else {
        match items_refusal(request_id, items.drop_last(), principal) {
            Some(reply) => Some(reply),
            None => infer_refusal(
                request_id,
                BATCH_CONTEXT@,
                items.last().payload,
                items.last().model,
                opt_snapshot(items.last().snapshot),
                principal,
            ),
        }
    }
}

proof fn lemma_items_refused_early(
    request_id: Seq<char>,
    items: Seq<BatchItem>,
    principal: Seq<char>,
    k: int,
)
    requires
        0 <= k <= items.len(),
        items_refusal(request_id, items.take(k), principal) is Some,
    ensures
        items_refusal(request_id, items, principal) == items_refusal(
            request_id,
            items.take(k),
            principal,
        ),
    decreases items.len(),
{
    if k < items.len() {
        assert(items.drop_last().take(k) =~= items.take(k));
        lemma_items_refused_early(request_id, items.drop_last(), principal, k);
    } else {
        assert(items.take(k) =~= items);
    }
}

/// Checks the requests of a batch; one that is refused has all refused.
pub fn validate_batch(request_id: &str, items: &Vec<BatchItem>, principal: &str) -> (r: Result<
    Vec<PreparedInferRequest>,
    Reply,
>)
    ensures
        match r {
            Ok(prepared) => {
                &&& items_refusal(request_id@, items@, principal@) is None
                &&& prepared@.len() == items@.len()
                &&& forall|i: int|
                    0 <= i < items@.len() ==> is_prepared(
                        #[trigger] prepared@[i],
                        items@[i].payload,
                        items@[i].model,
                    )
            },
            Err(reply) => items_refusal(request_id@, items@, principal@) == Some(reply@),
        },
{
    let mut out: Vec<PreparedInferRequest> = Vec::new();
    let mut i: usize = 0;
    while i < items.len()
        invariant
            i <= items@.len(),
            out@.len() == i,
            items_refusal(request_id@, items@.take(i as int), principal@) is None,
            forall|k: int|
                0 <= k < i ==> is_prepared(
                    #[trigger] out@[k],
                    items@[k].payload,
                    items@[k].model,
                ),
        decreases items@.len() - i,
    {
        assert(items@.take(i + 1).drop_last() =~= items@.take(i as int));
        assert(items@.take(i + 1).last() == items@[i as int]);
        match validate_infer_request(
            request_id,
            BATCH_CONTEXT,
            &items[i].payload,
            &items[i].model,
            &items[i].snapshot,
            principal,
        ) {
            Ok(p) => out.push(p),
            Err(reply) => {
                proof {
                    lemma_items_refused_early(request_id@, items@, principal@, i + 1);
                }
                return Err(reply);
            },
        }
        i += 1;
    }
    assert(items@.take(i as int) =~= items@);
    Ok(out)
}

/// What became of a request of a batch: its response, or a code and a message.
pub ghost enum ItemView {
    Answered(InferView),
    Failed(Seq<char>, Seq<char>),
}

/// What became of a request of a batch.
pub open spec fn item_of(r: InferBatchItemResult) -> Option<ItemView> {
    match (r.result, r.error) {
        (Some(response), None) => Some(ItemView::Answered(response@)),
        (None, Some(e)) => Some(ItemView::Failed(e.code@, e.message@)),
        _ => None,
    }
}

/// What became of a request, as it came back.
pub open spec fn item_view(r: Result<InferResponse, InferExecutionError>) -> ItemView {
    match r {
        Ok(response) => ItemView::Answered(response@),
        Err(e) => ItemView::Failed(e.code@, e.message@),
    }
}

/// A result as JSON.
pub open spec fn item_json(index: u64, item: ItemView) -> JsonView {
    JsonView::Object(
        seq![
            ("index"@, number_view(index)),
            ("ok"@, JsonView::Bool(item is Answered)),
            (
                "result"@,
                match item {
                    ItemView::Answered(v) => infer_json(v),
                    ItemView::Failed(_, _) => JsonView::Null,
                },
            ),
            (
                "error"@,
                match item {
                    ItemView::Answered(_) => JsonView::Null,
                    ItemView::Failed(code, message) => JsonView::Object(
                        seq![("code"@, JsonView::Text(code)), ("message"@, JsonView::Text(message))],
                    ),
                },
            ),
        ],
    )
}

/// What came back of a batch so far, by the place of each request.
#[derive(Debug)]
pub struct BatchLedger {
    ordered: Vec<Option<InferBatchItemResult>>,
    processed: usize,
    succeeded: usize,
    failed: usize,
}

/// How many of the first `k` requests came back with some outcome.
pub open spec fn came_back(items: Seq<Option<ItemView>>, k: int, answered: bool) -> nat
    decreases k,
{
    if k <= 0 {
        0
    } else {
        came_back(items, k - 1, answered) + if items[k - 1] is Some && (items[k - 1]->0 is Answered)
            == answered {
            1nat
        } else {
            0
        }
    }
}

/// The results of the first `k` requests that came back, as JSON.
pub open spec fn item_jsons(items: Seq<Option<ItemView>>, k: int) -> Seq<JsonView>
    decreases k,
{
    if k <= 0 {
        Seq::empty()
    } else {
        let before = item_jsons(items, k - 1);
        match items[k - 1] {
            Some(item) => before.push(item_json((k - 1) as u64, item)),
            None => before,
        }
    }
}

/// What a place of the ledger holds.
pub open spec fn entry_view(e: Option<InferBatchItemResult>) -> Option<ItemView> {
    match e {
        Some(r) => item_of(r),
        None => None,
    }
}

proof fn lemma_came_back_update(
    items: Seq<Option<ItemView>>,
    index: int,
    item: ItemView,
    k: int,
    answered: bool,
)
    requires
        0 <= index < items.len(),
        0 <= k <= items.len(),
        items[index] is None,
    ensures
        came_back(items.update(index, Some(item)), k, answered) == came_back(items, k, answered)
            + if index < k && (item is Answered) == answered {
            1nat
        } else {
            0
        },
    decreases k,
{
    if k > 0 {
        lemma_came_back_update(items, index, item, k - 1, answered);
    }
}

proof fn lemma_came_back_bound(items: Seq<Option<ItemView>>, k: int)
    requires
        0 <= k <= items.len(),
    ensures
        came_back(items, k, true) + came_back(items, k, false) <= k,
        (exists|i: int| 0 <= i < k && #[trigger] items[i] is None) ==> came_back(items, k, true)
            + came_back(items, k, false) < k,
    decreases k,
{
    if k > 0 {
        lemma_came_back_bound(items, k - 1);
        if exists|i: int| 0 <= i < k && #[trigger] items[i] is None {
            let i = choose|i: int| 0 <= i < k && #[trigger] items[i] is None;
            if i < k - 1 {
                assert(items[i] is None);
            }
        }
    }
}

impl View for BatchLedger {
    type V = Seq<Option<ItemView>>;

    closed spec fn view(&self) -> Seq<Option<ItemView>> {
        self.ordered@.map_values(|e: Option<InferBatchItemResult>| entry_view(e))
    }
}

impl BatchLedger {
    /// The counts are right, and each result stands in its place.
    pub closed spec fn wf(self) -> bool {
        &&& self.succeeded == came_back(self@, self@.len() as int, true)
        &&& self.failed == came_back(self@, self@.len() as int, false)
        &&& self.processed == self.succeeded + self.failed
        &&& forall|i: int|
            0 <= i < self.ordered@.len() ==> (#[trigger] self.ordered@[i] matches Some(r) ==> {
                &&& r.index == i
                &&& item_of(r) is Some
                &&& r.ok == (item_of(r)->0 is Answered)
            })
    }

    /// Nothing came back yet of `total` requests.
    pub fn new(total: usize) -> (r: BatchLedger)
        ensures
            r.wf(),
            r@ == Seq::new(total as nat, |i: int| None::<ItemView>),
    {
        let mut ordered: Vec<Option<InferBatchItemResult>> = Vec::new();
        let mut i: usize = 0;
        while i < total
            invariant
                i <= total,
                ordered@.len() == i,
                forall|k: int| 0 <= k < i ==> (#[trigger] ordered@[k]) is None,
            decreases total - i,
        {
            ordered.push(None);
            i += 1;
        }
        let r = BatchLedger { ordered, processed: 0, succeeded: 0, failed: 0 };
        proof {
            assert(r@ =~= Seq::new(total as nat, |i: int| None::<ItemView>));
            lemma_nothing_came_back(r@, total as int);
        }
        r
    }

    /// Writes down what came back of one request.
    pub fn record(&mut self, index: usize, result: Result<InferResponse, InferExecutionError>)
        requires
            old(self).wf(),
            index < old(self)@.len(),
            old(self)@[index as int] is None,
        ensures
            final(self).wf(),
            final(self)@ == old(self)@.update(index as int, Some(item_view(result))),
    {
        let ghost before = self@;
        let ghost item = item_view(result);
        proof {
            lemma_came_back_update(before, index as int, item, before.len() as int, true);
            lemma_came_back_update(before, index as int, item, before.len() as int, false);
            lemma_came_back_bound(before, before.len() as int);
            assert(before[index as int] is None);
        }
        let n: usize = self.ordered.len();
        assert(before.len() == n);
        self.processed += 1;
        match result {
            Ok(response) => {
                self.succeeded += 1;
                self.ordered.set(
                    index,
                    Some(
                        InferBatchItemResult {
                            index,
                            ok: true,
                            result: Some(response),
                            error: None,
                        },
                    ),
                );
            },
            Err(e) => {
                self.failed += 1;
                self.ordered.set(
                    index,
                    Some(
                        InferBatchItemResult {
                            index,
                            ok: false,
                            result: None,
                            error: Some(InferBatchItemError { code: e.code, message: e.message }),
                        },
                    ),
                );
            },
        }
        assert(self@ =~= before.update(index as int, Some(item)));
    }

    /// The reply with what came back, in the order of the requests.
    pub fn finish(&self, request_id: &str) -> (r: Reply)
        requires
            self.wf(),
        ensures
            r@ == batch_reply(request_id@, self@),
    {
        let ghost items = self@;
        let mut results: Vec<Json> = Vec::new();
        let mut i: usize = 0;
        assert(crate::json::json_views(results@) =~= Seq::empty());
        while i < self.ordered.len()
            invariant
                self.wf(),
                items == self@,
                items.len() == self.ordered@.len(),
                i <= self.ordered@.len(),
                crate::json::json_views(results@) == item_jsons(items, i as int),
            decreases self.ordered@.len() - i,
        {
            match &self.ordered[i] {
                Some(r) => {
                    let ghost before = crate::json::json_views(results@);
                    assert(items[i as int] == item_of(*r));
                    results.push(tell_item(r));
                    assert(crate::json::json_views(results@) =~= before.push(
                        item_json(i as u64, items[i as int]->0),
                    ));
                },
                None => {
                    assert(items[i as int] is None);
                },
            }
            i += 1;
        }
        let mut o = Fields::new();
        o.put("request_id", Json::text(request_id));
        o.put("processed", Json::number(self.processed as u64));
        o.put("succeeded", Json::number(self.succeeded as u64));
        o.put("failed", Json::number(self.failed as u64));
        o.put("results", Json::list(results));
        assert(o@ =~= batch_reply(request_id@, items).body->Object_0);
        ok(o.object())
    }
}

proof fn lemma_nothing_came_back(items: Seq<Option<ItemView>>, k: int)
    requires
        0 <= k <= items.len(),
        forall|i: int| 0 <= i < items.len() ==> #[trigger] items[i] is None,
    ensures
        came_back(items, k, true) == 0,
        came_back(items, k, false) == 0,
    decreases k,
{
    if k > 0 {
        lemma_nothing_came_back(items, k - 1);
    }
}

fn tell_item(r: &InferBatchItemResult) -> (j: Json)
    requires
        item_of(*r) is Some,
        r.ok == (item_of(*r)->0 is Answered),
    ensures
        j@ == item_json(r.index as u64, item_of(*r)->0),
{
    let result = match &r.result {
        Some(response) => response.to_json(),
        None => Json::Null,
    };
    let error = match &r.error {
        Some(e) => {
            let mut o = Fields::new();
            o.put("code", Json::text(e.code));
            o.put("message", Json::text(e.message.as_str()));
            assert(o@ =~= seq![
                ("code"@, JsonView::Text(e.code@)),
                ("message"@, JsonView::Text(e.message@)),
            ]);
            o.object()
        },
        None => Json::Null,
    };
    let mut o = Fields::new();
    o.put("index", Json::number(r.index as u64));
    o.put("ok", Json::Bool(r.ok));
    o.put("result", result);
    o.put("error", error);
    assert(o@ =~= item_json(r.index as u64, item_of(*r)->0)->Object_0);
    o.object()
}

/// The reply to a batch: how many requests came back and how, and the results
/// in the order of the requests.
pub open spec fn batch_reply(request_id: Seq<char>, items: Seq<Option<ItemView>>) -> ReplyView {
    let n = items.len() as int;
    let good = came_back(items, n, true);
    let bad = came_back(items, n, false);
    ok_view(
        JsonView::Object(
            seq![
                ("request_id"@, JsonView::Text(request_id)),
                ("processed"@, number_view((good + bad) as u64)),
                ("succeeded"@, number_view(good as u64)),
                ("failed"@, number_view(bad as u64)),
                ("results"@, JsonView::Array(item_jsons(items, n))),
            ],
        ),
    )
}

/// Where all requests of a batch came back, there is one result for each, in
/// the order of the requests, whatever the order in which they came back.
pub proof fn batch_results_keep_the_order(items: Seq<Option<ItemView>>, k: int)
    requires
        0 <= k <= items.len(),
        forall|i: int| 0 <= i < items.len() ==> #[trigger] items[i] is Some,
    ensures
        item_jsons(items, k).len() == k,
        forall|i: int|
            0 <= i < k ==> #[trigger] item_jsons(items, k)[i] == item_json(i as u64, items[i]->0),
        came_back(items, k, true) + came_back(items, k, false) == k,
    decreases k,
{
    if k > 0 {
        batch_results_keep_the_order(items, k - 1);
        assert(items[k - 1] is Some);
    }
}

/// A question is accepted exactly if its run, where it names one, is the
/// caller's and still goes on, its model is known, and its prompt, its tokens,
/// its temperature, its time and its provider lie within their bounds.
pub proof fn questions_keep_their_bounds(
    request_id: Seq<char>,
    context: Seq<char>,
    payload: InferRequest,
    model: Result<String, String>,
    snapshot: Option<SnapshotView>,
    principal: Seq<char>,
)
    ensures
        infer_refusal(request_id, context, payload, model, snapshot, principal) is None <==> {
            &&& payload.run_id matches Some(run_id) ==> crate::ids::valid_run_id(run_id@)
                && crate::runs::visible(snapshot, principal) && !snapshot->0.terminal
            &&& model is Ok
            &&& 1 <= trimmed(payload.prompt@).len()
            &&& encode_utf8(trimmed(payload.prompt@)).len() <= 32 * 1024
            &&& payload.max_tokens matches Some(n) ==> 1 <= n <= 4096
            &&& payload.temperature matches Some(t) ==> single(0).le(t) && t.le(
                single(0x4000_0000),
            )
            &&& payload.timeout_ms matches Some(n) ==> 1 <= n <= 120_000
            &&& payload.primary_provider matches Some(name) ==> {
                let low = lowered(name@);
                low == "vllm"@ || low == "sglang"@ || low == "gemini"@
            }
        },
{
    assert(single(0).le(single(0)) && single(0).le(single(0x4000_0000)));
}

/// A prepared question is the one that was asked, with what was left open set to
/// its usual value.
pub proof fn questions_are_prepared_as_asked(
    p: PreparedInferRequest,
    payload: InferRequest,
    model: Result<String, String>,
)
    requires
        is_prepared(p, payload, model),
    ensures
        opt_text(p.run_id) == opt_text(payload.run_id),
        p.request.model@ == model->Ok_0@,
        p.request.prompt@ == trimmed(payload.prompt@),
        payload.max_tokens matches Some(n) ==> p.request.max_tokens == n,
        payload.max_tokens is None ==> p.request.max_tokens == 256,
        payload.temperature matches Some(t) ==> p.request.temperature == t,
        payload.temperature is None ==> p.request.temperature == single(0),
        payload.timeout_ms matches Some(n) ==> p.request.timeout_ms == n,
        payload.timeout_ms is None ==> p.request.timeout_ms == 20_000,
        payload.allow_fallback matches Some(b) ==> p.request.allow_fallback == b,
        payload.allow_fallback is None ==> p.request.allow_fallback,
        payload.primary_provider is None ==> p.primary_provider == ProviderKind::Vllm,
        payload.primary_provider matches Some(name) ==> lowered(name@)
            == p.primary_provider.label(),
{
}

/// Who is asked is told by the label of the provider, and no two have one label.
pub proof fn labels_tell_the_providers(raw: Seq<char>)
    ensures
        lowered(raw) == "vllm"@ ==> provider_of(Some(raw)) == Some(ProviderKind::Vllm),
        lowered(raw) == "sglang"@ ==> provider_of(Some(raw)) == Some(ProviderKind::Sglang),
        lowered(raw) == "gemini"@ ==> provider_of(Some(raw)) == Some(ProviderKind::Gemini),
        provider_of(Some(raw)) matches Some(p) ==> p.label() == lowered(raw),
        provider_of(None) == Some(ProviderKind::Vllm),
{
    reveal_strlit("vllm");
    reveal_strlit("sglang");
    reveal_strlit("gemini");
    assert("vllm"@.len() == 4 && "sglang"@.len() == 6 && "gemini"@.len() == 6);
    assert("sglang"@[0] == 's' && "gemini"@[0] == 'g');
}

/// An answer is told as the provider gave it.
pub proof fn answers_are_told_whole(
    request_id: Seq<char>,
    run_id: Option<Seq<char>>,
    a: ProviderAnswer,
)
    ensures
        ({
            let told = infer_json(answer_view(request_id, run_id, a));
            let tokens = told.get("tokens"@);
            &&& told.text_at("request_id"@) == Some(request_id)
            &&& told.text_at("run_id"@) == run_id
            &&& told.text_at("provider"@) == Some(a.provider.label())
            &&& told.text_at("model"@) == Some(a.model@)
            &&& told.flag_at("fallback_used"@) == Some(a.fallback_used)
            &&& told.text_at("output_text"@) == Some(a.output_text@)
            &&& told.text_at("finish_reason"@) == opt_text(a.finish_reason)
            &&& told.unsigned_at("inference_latency_ms"@) == Some(a.inference_latency_ms)
            &&& tokens == Some(usage_json(a.usage))
        }),
{
    reveal_strlit("request_id");
    reveal_strlit("run_id");
    reveal_strlit("provider");
    reveal_strlit("model");
    reveal_strlit("fallback_used");
    reveal_strlit("output_text");
    reveal_strlit("finish_reason");
    reveal_strlit("inference_latency_ms");
    reveal_strlit("tokens");
    assert("request_id"@.len() == 10);
    assert("run_id"@.len() == 6);
    assert("provider"@.len() == 8);
    assert("model"@.len() == 5);
    assert("fallback_used"@.len() == 13);
    assert("output_text"@.len() == 11);
    assert("finish_reason"@.len() == 13);
    assert("inference_latency_ms"@.len() == 20);
    assert("tokens"@.len() == 6);
    assert("run_id"@[0] == 'r' && "tokens"@[0] == 't');
    assert("fallback_used"@[1] == 'a' && "finish_reason"@[1] == 'i');
    let fields = infer_json(answer_view(request_id, run_id, a))->Object_0;
    crate::json::field_is_found(fields, 0);
    crate::json::field_is_found(fields, 1);
    crate::json::field_is_found(fields, 2);
    crate::json::field_is_found(fields, 3);
    crate::json::field_is_found(fields, 4);
    crate::json::field_is_found(fields, 5);
    crate::json::field_is_found(fields, 6);
    crate::json::field_is_found(fields, 7);
    crate::json::field_is_found(fields, 8);
}

/// What was spent is told number by number.
pub proof fn spending_is_told_whole(u: TokenUsage)
    ensures
        usage_json(u).unsigned_at("prompt_tokens"@) == Some(u.prompt_tokens as u64),
        usage_json(u).unsigned_at("completion_tokens"@) == Some(u.completion_tokens as u64),
        usage_json(u).unsigned_at("thinking_tokens"@) == Some(u.thinking_tokens as u64),
        usage_json(u).unsigned_at("total_tokens"@) == Some(u.total_tokens as u64),
{
    reveal_strlit("prompt_tokens");
    reveal_strlit("completion_tokens");
    reveal_strlit("thinking_tokens");
    reveal_strlit("total_tokens");
    assert("prompt_tokens"@.len() == 13);
    assert("completion_tokens"@.len() == 17);
    assert("thinking_tokens"@.len() == 15);
    assert("total_tokens"@.len() == 12);
    let fields = usage_json(u)->Object_0;
    crate::json::field_is_found(fields, 0);
    crate::json::field_is_found(fields, 1);
    crate::json::field_is_found(fields, 2);
    crate::json::field_is_found(fields, 3);
}

/// An answered question is logged with who answered and how many bytes went and
/// came.
pub proof fn answers_are_logged(request_id: Seq<char>, prompt: Seq<char>, a: ProviderAnswer)
    ensures
        ({
            let told = completed_payload(request_id, prompt, a);
            &&& told.text_at("request_id"@) == Some(request_id)
            &&& told.text_at("provider"@) == Some(a.provider.label())
            &&& told.text_at("model"@) == Some(a.model@)
            &&& told.flag_at("fallback_used"@) == Some(a.fallback_used)
            &&& told.unsigned_at("prompt_bytes"@) == Some(encode_utf8(prompt).len() as u64)
            &&& told.unsigned_at("output_bytes"@) == Some(
                encode_utf8(a.output_text@).len() as u64,
            )
        }),
{
    reveal_strlit("request_id");
    reveal_strlit("provider");
    reveal_strlit("model");
    reveal_strlit("fallback_used");
    reveal_strlit("prompt_bytes");
    reveal_strlit("output_bytes");
    assert("request_id"@.len() == 10);
    assert("provider"@.len() == 8);
    assert("model"@.len() == 5);
    assert("fallback_used"@.len() == 13);
    assert("prompt_bytes"@.len() == 12);
    assert("output_bytes"@.len() == 12);
    assert("prompt_bytes"@[0] == 'p' && "output_bytes"@[0] == 'o');
    let fields = completed_payload(request_id, prompt, a)->Object_0;
    crate::json::field_is_found(fields, 0);
    crate::json::field_is_found(fields, 1);
    crate::json::field_is_found(fields, 2);
    crate::json::field_is_found(fields, 3);
    crate::json::field_is_found(fields, 4);
    crate::json::field_is_found(fields, 5);
}

/// A failed question is the caller's fault exactly where the model is not
/// supported.
pub proof fn failures_are_the_callers_for_models_only(request_id: Seq<char>, f: InferFailure)
    ensures
        infer_error_reply(request_id, failure_view(f)).status == if f is UnsupportedModel {
            422u16
        } else {
            500
        },
        failure_view(f).0 == match f {
            InferFailure::UnsupportedModel => "validation_error"@,
            InferFailure::HttpStatus(_) => "provider_http_status"@,
            InferFailure::Transport(_) => "provider_transport"@,
            InferFailure::InvalidResponse(_) => "provider_invalid_response"@,
            InferFailure::Broke(_) => "internal_error"@,
        },
{
    reveal_strlit("validation_error");
    reveal_strlit("provider_http_status");
    reveal_strlit("provider_transport");
    reveal_strlit("provider_invalid_response");
    reveal_strlit("internal_error");
    assert("validation_error"@.len() == 16);
    assert("provider_http_status"@.len() == 20);
    assert("provider_transport"@.len() == 18);
    assert("provider_invalid_response"@.len() == 25);
    assert("internal_error"@.len() == 14);
}

/// A batch is accepted exactly if it has between one and two hundred and
/// fifty-six questions, asks for between one and sixty-four at a time, and each
/// of its questions is accepted.
pub proof fn batches_keep_their_bounds(
    request_id: Seq<char>,
    items: Seq<BatchItem>,
    max_parallel: Option<usize>,
    principal: Seq<char>,
)
    ensures
        batch_refusal(request_id, items.len(), max_parallel) is None <==> 1 <= items.len() <= 256
            && (max_parallel matches Some(n) ==> 1 <= n <= 64),
        items_refusal(request_id, items, principal) is None <==> forall|i: int|
            #![trigger items[i]]
            0 <= i < items.len() ==> infer_refusal(
                request_id,
                BATCH_CONTEXT@,
                items[i].payload,
                items[i].model,
                opt_snapshot(items[i].snapshot),
                principal,
            ) is None,
    decreases items.len(),
{
    if items.len() > 0 {
        let rest = items.drop_last();
        batches_keep_their_bounds(request_id, rest, max_parallel, principal);
        assert forall|i: int| 0 <= i < rest.len() implies rest[i] == #[trigger] items[i] by {}
        assert(items[items.len() - 1] == items.last());
        if items_refusal(request_id, rest, principal) is Some {
            let i = choose|i: int| #![trigger rest[i]]
                0 <= i < rest.len() && infer_refusal(
                    request_id,
                    BATCH_CONTEXT@,
                    rest[i].payload,
                    rest[i].model,
                    opt_snapshot(rest[i].snapshot),
                    principal,
                ) is Some;
            assert(rest[i] == items[i]);
        } else {
            assert forall|i: int| #![trigger items[i]] 0 <= i < rest.len() implies infer_refusal(
                request_id,
                BATCH_CONTEXT@,
                items[i].payload,
                items[i].model,
                opt_snapshot(items[i].snapshot),
                principal,
            ) is None by {
                assert(rest[i] == items[i]);
            }
        }
    }
}

/// The questions that were answered, and those that failed.
pub open spec fn ended_as(items: Seq<Option<ItemView>>, answered: bool) -> spec_fn(int) -> bool {
    |i: int| items[i] is Some && (items[i]->0 is Answered <==> answered)
}

/// A batch is told with as many answers as came, as many failures, and as many
/// results as both.
pub proof fn batches_tell_their_counts(request_id: Seq<char>, items: Seq<Option<ItemView>>)
    requires
        items.len() <= 256,
    ensures
        ({
            let told = batch_reply(request_id, items);
            let good = crate::places::places(items.len(), ended_as(items, true)).len();
            let bad = crate::places::places(items.len(), ended_as(items, false)).len();
            &&& told.status == 200
            &&& told.body.text_at("request_id"@) == Some(request_id)
            &&& told.body.unsigned_at("succeeded"@) == Some(good as u64)
            &&& told.body.unsigned_at("failed"@) == Some(bad as u64)
            &&& told.body.unsigned_at("processed"@) == Some((good + bad) as u64)
            &&& told.body.items_at("results"@) is Some
            &&& told.body.items_at("results"@)->0.len() == good + bad
        }),
{
    lemma_came_back(items, items.len(), true);
    lemma_came_back(items, items.len(), false);
    lemma_results_are_counted(items, items.len());
    reveal_strlit("request_id");
    reveal_strlit("processed");
    reveal_strlit("succeeded");
    reveal_strlit("failed");
    reveal_strlit("results");
    assert("request_id"@.len() == 10);
    assert("processed"@.len() == 9);
    assert("succeeded"@.len() == 9);
    assert("failed"@.len() == 6);
    assert("results"@.len() == 7);
    assert("processed"@[0] == 'p' && "succeeded"@[0] == 's');
    let fields = batch_reply(request_id, items).body->Object_0;
    crate::json::field_is_found(fields, 0);
    crate::json::field_is_found(fields, 1);
    crate::json::field_is_found(fields, 2);
    crate::json::field_is_found(fields, 3);
    crate::json::field_is_found(fields, 4);
}

proof fn lemma_came_back(items: Seq<Option<ItemView>>, k: nat, answered: bool)
    requires
        k <= items.len(),
    ensures
        came_back(items, k as int, answered) == crate::places::places(
            k,
            ended_as(items, answered),
        ).len(),
    decreases k,
{
    if k == 0 {
        crate::places::no_place_below_zero(ended_as(items, answered));
    } else {
        let m = (k - 1) as nat;
        lemma_came_back(items, m, answered);
        crate::places::next_place_counts(m, ended_as(items, answered));
    }
}

proof fn lemma_results_are_counted(items: Seq<Option<ItemView>>, k: nat)
    requires
        k <= items.len(),
    ensures
        item_jsons(items, k as int).len() == came_back(items, k as int, true) + came_back(
            items,
            k as int,
            false,
        ),
    decreases k,
{
    if k > 0 {
        lemma_results_are_counted(items, (k - 1) as nat);
    }
}

/// A question of a batch is told at its place with either what was answered or
/// what went wrong.
pub proof fn batch_items_tell_their_end(index: u64, item: ItemView)
    ensures
        ({
            let told = item_json(index, item);
            &&& told.unsigned_at("index"@) == Some(index)
            &&& told.flag_at("ok"@) == Some(item is Answered)
            &&& item matches ItemView::Answered(v) ==> told.get("result"@) == Some(infer_json(v))
                && told.get("error"@) == Some(JsonView::Null)
            &&& item matches ItemView::Failed(code, message) ==> told.get("result"@) == Some(
                JsonView::Null,
            ) && told.get("error"@) is Some && told.get("error"@)->0.text_at("code"@) == Some(code)
                && told.get("error"@)->0.text_at("message"@) == Some(message)
        }),
{
    reveal_strlit("index");
    reveal_strlit("ok");
    reveal_strlit("result");
    reveal_strlit("error");
    reveal_strlit("code");
    reveal_strlit("message");
    assert("index"@.len() == 5);
    assert("ok"@.len() == 2);
    assert("result"@.len() == 6);
    assert("error"@.len() == 5);
    assert("code"@.len() == 4);
    assert("message"@.len() == 7);
    assert("index"@[0] == 'i' && "error"@[0] == 'e');
    let fields = item_json(index, item)->Object_0;
    crate::json::field_is_found(fields, 0);
    crate::json::field_is_found(fields, 1);
    crate::json::field_is_found(fields, 2);
    crate::json::field_is_found(fields, 3);
    if let ItemView::Failed(code, message) = item {
        let inner = seq![("code"@, JsonView::Text(code)), ("message"@, JsonView::Text(message))];
        crate::json::field_is_found(inner, 0);
        crate::json::field_is_found(inner, 1);
    }
}

} // verus!
