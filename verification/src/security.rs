//! Who may ask for what: API keys, tenants, rate limits and the origins that
//! browsers may ask from.

use vstd::prelude::*;
use vstd::utf8::encode_utf8;

use crate::auth::{strong_hash, strong_hash_hex};
use crate::codec::hashable;
use crate::config::{
    tenants_without_keys, validate_tenant_auth_config, ServerConfig, TENANT_AUTH_PROBLEM,
};
use crate::rate_limit::{
    after_admission, before_request, has_room, quota_of, GlobalRateLimiter, TenantRateLimiter,
};
use crate::models::FieldError;
use crate::response::{detail_views, error_view, structured_error, Reply, ReplyView};
use crate::sort::views;
use crate::text::{has_text, opt_str, opt_text, owned, owned_list, same, texts, trim, trimmed};

verus! {

/// What is said where keys are asked for and none is known.
pub const NO_KEYS_PROBLEM: &'static str =
    "VIDARAX_REQUIRE_API_KEY=true requires at least one VIDARAX_API_KEYS value";

/// What is said where tenants have a rate limit and none can be tracked.
pub const NO_SLOTS_PROBLEM: &'static str = "VIDARAX_RATE_LIMIT_TENANT_SLOTS must be >= 1";

/// Whether two byte strings are the same. How long it takes depends on their
/// lengths alone, not on where they differ.
pub fn constant_time_eq(lhs: &[u8], rhs: &[u8]) -> (r: bool)
    ensures
        r == (lhs@ == rhs@),
{
    let n: usize = lhs.len();
    let m: usize = rhs.len();
    let mut diff: usize = n ^ m;
    assert(n ^ m == 0 <==> n == m) by (bit_vector);
    let max: usize = if n < m { m } else { n };
    let mut i: usize = 0;
    while i < max
        invariant
            n == lhs@.len(),
            m == rhs@.len(),
            max == if n < m { m } else { n },
            i <= max,
            diff == 0 <==> (n == m && forall|j: int| 0 <= j < i ==> lhs@[j] == rhs@[j]),
        decreases max - i,
    {
        let a: u8 = if i < n { lhs[i] } else { 0 };
        let b: u8 = if i < m { rhs[i] } else { 0 };
        let x: u8 = a ^ b;
        let wide: usize = x as usize;
        let was: usize = diff;
        diff = was | wide;
        assert(a ^ b == 0 <==> a == b) by (bit_vector);
        assert(was | wide == 0 <==> (was == 0 && wide == 0)) by (bit_vector);
        i += 1;
    }
    assert(diff == 0 ==> lhs@ =~= rhs@);
    diff == 0
}

/// The origins of a list, each once and without the spaces around it.
pub open spec fn normalized_origins(origins: Seq<Seq<char>>) -> Seq<Seq<char>>
    decreases origins.len(),
{
    if origins.len() == 0 {
        Seq::empty()
    } else {
        let before = normalized_origins(origins.drop_last());
        let t = trimmed(origins.last());
        if t.len() == 0 || before.contains(t) {
            before
        } else {
            before.push(t)
        }
    }
}

/// The origins of a list, each once and without the spaces around it; what is
/// blank is left out.
pub fn normalize_cors_origins(origins: &Vec<String>) -> (r: Vec<String>)
    ensures
        texts(r@) == normalized_origins(texts(origins@)),
{
    let ghost all = texts(origins@);
    let mut out: Vec<String> = Vec::new();
    let mut i: usize = 0;
    assert(all.take(0) =~= Seq::empty());
    assert(texts(out@) =~= Seq::empty());
    while i < origins.len()
        invariant
            all == texts(origins@),
            i <= origins@.len(),
            texts(out@) == normalized_origins(all.take(i as int)),
        decreases origins@.len() - i,
    {
        let t = trim(origins[i].as_str());
        let ghost before = texts(out@);
        let ghost tv = t@;
        assert(all.take(i + 1).drop_last() =~= all.take(i as int));
        assert(all.take(i + 1).last() == origins@[i as int]@);
        if !t.as_str().is_empty() && !has_text(&out, t.as_str()) {
            out.push(t);
            assert(texts(out@) =~= before.push(tv));
        }
        i += 1;
    }
    assert(all.take(i as int) =~= all);
    out
}

/// A byte may stand in the value of a header.
pub open spec fn is_header_byte(b: u8) -> bool {
    b >= 32 && b != 127 || b == 9
}

/// `axum::http::HeaderValue::from_str`, asked only whether it takes a text: it
/// does where each byte is a tab or no control character.
#[verifier::external_body]
fn fits_header(text: &str) -> (r: bool)
    ensures
        r == (forall|i: int|
            0 <= i < vstd::utf8::encode_utf8(text@).len() ==> is_header_byte(
                #[trigger] vstd::utf8::encode_utf8(text@)[i],
            )),
{
    axum::http::HeaderValue::from_str(text).is_ok()
}

/// A text may stand in the value of a header.
pub open spec fn is_header_text(s: Seq<char>) -> bool {
    forall|i: int|
        0 <= i < vstd::utf8::encode_utf8(s).len() ==> is_header_byte(
            #[trigger] vstd::utf8::encode_utf8(s)[i],
        )
}

/// Who may ask for what.
pub struct SecurityPolicy {
    require_api_key: bool,
    api_keys: Vec<String>,
    require_tenant_id: bool,
    global_limiter: Option<GlobalRateLimiter>,
    tenant_limiter: Option<TenantRateLimiter>,
    metrics_require_api_key: bool,
    cors_allowed_origins: Vec<String>,
}

/// The rate limit of each tenant: the requests in a second, the tenants that
/// are tracked at most, those that are tracked, and how many requests were held
/// against them.
pub ghost struct TenantLimitView {
    pub quota: u32,
    pub cap: nat,
    pub tenants: Map<Seq<char>, u64>,
    pub requests: u64,
}

/// What a policy says.
pub ghost struct PolicyView {
    pub require_api_key: bool,
    pub api_keys: Seq<Seq<char>>,
    pub require_tenant_id: bool,
    pub global_quota: Option<u32>,
    pub tenant_limit: Option<TenantLimitView>,
    pub metrics_require_api_key: bool,
    pub origins: Seq<Seq<char>>,
}

/// What is wrong with the part of a configuration that a policy is made of.
pub open spec fn policy_problem(config: ServerConfig) -> Option<Seq<char>> {
    if config.security_require_api_key && config.security_api_keys@.len() == 0 {
        Some(NO_KEYS_PROBLEM@)
    } else if tenants_without_keys(
        config.security_require_api_key,
        config.security_require_tenant_id,
    ) {
        Some(TENANT_AUTH_PROBLEM@)
    } else if config.security_tenant_rps is Some && config.security_tenant_slots == 0 {
        Some(NO_SLOTS_PROBLEM@)
    } else {
        None
    }
}

/// The policy that a configuration asks for.
pub open spec fn policy_of(config: ServerConfig) -> PolicyView {
    PolicyView {
        require_api_key: config.security_require_api_key,
        api_keys: texts(config.security_api_keys@),
        require_tenant_id: config.security_require_tenant_id,
        global_quota: match config.security_global_rps {
            Some(limit) => Some(quota_of(limit)),
            None => None,
        },
        tenant_limit: match config.security_tenant_rps {
            Some(limit) => Some(
                TenantLimitView {
                    quota: quota_of(limit),
                    cap: config.security_tenant_slots as nat,
                    tenants: Map::empty(),
                    requests: 0,
                },
            ),
            None => None,
        },
        metrics_require_api_key: config.security_metrics_require_api_key,
        origins: normalized_origins(texts(config.cors_allowed_origins@)),
    }
}

/// Nothing is asked of anybody.
pub open spec fn is_open(p: PolicyView) -> bool {
    !p.require_api_key && !p.require_tenant_id && p.global_quota is None && p.tenant_limit is None
}

/// Browsers may ask from an origin.
pub open spec fn origin_allowed(p: PolicyView, origin: Seq<char>) -> bool {
    p.origins.contains("*"@) || p.origins.contains(origin)
}

/// The origin that a reply names, and whether the reply varies with it.
pub open spec fn named_origin(p: PolicyView, origin: Option<Seq<char>>) -> Option<(Seq<char>, bool)> {
    match origin {
        None => None,
        Some(o) => if p.origins.contains("*"@) {
            Some(("*"@, false))
        } else if p.origins.contains(o) && is_header_text(o) {
            Some((o, true))
        } else {
            None
        },
    }
}

/// The key of a caller: by the hash of an API key that the policy knows, else
/// the public one. What the caller says of tenants does not count.
pub open spec fn principal_of(p: PolicyView, f: FactsView) -> Seq<char> {
    match f.api_key {
        Some(k) => if p.api_keys.contains(k) {
            "api-key:"@ + strong_hash(k)
        } else {
            "public"@
        },
        None => "public"@,
    }
}

/// What a policy reads of a request. A header is there as text where it is
/// visible ASCII.
pub struct RequestFacts {
    /// The method is OPTIONS.
    pub is_options: bool,
    pub path: String,
    pub origin: Option<String>,
    /// There is an origin header, readable or not.
    pub has_origin: bool,
    /// There is a header that says which method a browser will ask with.
    pub has_request_method: bool,
    pub api_key: Option<String>,
    pub tenant_id: Option<String>,
}

/// What a policy reads of a request.
pub ghost struct FactsView {
    pub is_options: bool,
    pub path: Seq<char>,
    pub origin: Option<Seq<char>>,
    pub has_origin: bool,
    pub has_request_method: bool,
    pub api_key: Option<Seq<char>>,
    pub tenant_id: Option<Seq<char>>,
}

impl FactsView {
    /// The API key is no longer than what can be hashed.
    pub open spec fn fits(self) -> bool {
        self.api_key is Some ==> hashable(encode_utf8(self.api_key->0))
    }
}

impl View for RequestFacts {
    type V = FactsView;

    open spec fn view(&self) -> FactsView {
        FactsView {
            is_options: self.is_options,
            path: self.path@,
            origin: opt_text(self.origin),
            has_origin: self.has_origin,
            has_request_method: self.has_request_method,
            api_key: opt_text(self.api_key),
            tenant_id: opt_text(self.tenant_id),
        }
    }
}

/// What becomes of a request.
pub enum Verdict {
    /// It is answered at once.
    Refuse(Reply),
    /// It asks for leave, and gets it: an empty reply with status 204.
    Preflight,
    /// It is carried out.
    Pass,
    /// It is carried out where the rate limit of a principal leaves room.
    CheckRate(String),
}

/// What becomes of a request.
pub ghost enum VerdictView {
    Refuse(ReplyView),
    Preflight,
    Pass,
    CheckRate(Seq<char>),
}

impl View for Verdict {
    type V = VerdictView;

    open spec fn view(&self) -> VerdictView {
        match self {
            Verdict::Refuse(reply) => VerdictView::Refuse(reply@),
            Verdict::Preflight => VerdictView::Preflight,
            Verdict::Pass => VerdictView::Pass,
            Verdict::CheckRate(principal) => VerdictView::CheckRate(principal@),
        }
    }
}

/// A request is answered with an error.
pub open spec fn refused(
    status: u16,
    code: Seq<char>,
    message: Seq<char>,
    request_id: Seq<char>,
) -> VerdictView {
    VerdictView::Refuse(
        ReplyView { status, body: error_view(code, message, request_id, Seq::empty()) },
    )
}

/// A request only asks whether a browser may ask.
pub open spec fn is_preflight(f: FactsView) -> bool {
    f.is_options && f.has_origin && f.has_request_method
}

/// The answer to a browser that asks whether it may ask.
pub open spec fn preflight_verdict(
    p: PolicyView,
    origin: Option<Seq<char>>,
    request_id: Seq<char>,
) -> VerdictView {
    match origin {
        None => refused(400, "validation_error"@, "missing origin header"@, request_id),
        Some(o) => if origin_allowed(p, o) {
            VerdictView::Preflight
        } else {
            refused(
                403,
                "cors_forbidden"@,
                "origin is not allowed by cors policy"@,
                request_id,
            )
        },
    }
}

/// The answer to a request whose API key is missing or unknown.
pub open spec fn key_refusal(
    p: PolicyView,
    f: FactsView,
    request_id: Seq<char>,
) -> Option<VerdictView> {
    match f.api_key {
        None => Some(refused(401, "unauthorized"@, "missing x-api-key header"@, request_id)),
        Some(k) => if p.api_keys.contains(k) {
            None
        } else {
            Some(refused(401, "unauthorized"@, "invalid api key"@, request_id))
        },
    }
}

/// What becomes of a request that asks for the metrics where those have keys.
pub open spec fn metrics_verdict(p: PolicyView, f: FactsView, request_id: Seq<char>) -> VerdictView {
    if p.api_keys.len() == 0 {
        refused(
            503,
            "metrics_unavailable"@,
            "metrics authentication is enabled but no api keys are configured"@,
            request_id,
        )
    } else if key_refusal(p, f, request_id) is Some {
        key_refusal(p, f, request_id)->0
    } else if p.tenant_limit is Some {
        VerdictView::CheckRate(principal_of(p, f))
    } else {
        VerdictView::Pass
    }
}

/// What becomes of a request that a policy asks something of.
pub open spec fn guarded_verdict(p: PolicyView, f: FactsView, request_id: Seq<char>) -> VerdictView {
    if p.require_api_key && key_refusal(p, f, request_id) is Some {
        key_refusal(p, f, request_id)->0
    } else if p.require_tenant_id && f.tenant_id is None {
        refused(401, "unauthorized"@, "missing x-tenant-id header"@, request_id)
    } else if p.tenant_limit is Some {
        if f.tenant_id is None {
            refused(
                401,
                "unauthorized"@,
                "x-tenant-id header is required when tenant rate limiting is enabled"@,
                request_id,
            )
        } else {
            VerdictView::CheckRate(principal_of(p, f))
        }
    } else {
        VerdictView::Pass
    }
}

/// What becomes of a request, given whether the limit on all callers together
/// leaves room.
pub open spec fn first_verdict(
    p: PolicyView,
    f: FactsView,
    request_id: Seq<char>,
    global_allowed: bool,
) -> VerdictView {
    if !global_allowed {
        refused(429, "rate_limited"@, "global request rate exceeded"@, request_id)
    } else if is_preflight(f) {
        preflight_verdict(p, f.origin, request_id)
    } else if f.path == "/v1/health"@ {
        VerdictView::Pass
    } else if f.path == "/v1/metrics"@ && p.metrics_require_api_key {
        metrics_verdict(p, f, request_id)
    } else if is_open(p) {
        VerdictView::Pass
    } else {
        guarded_verdict(p, f, request_id)
    }
}

/// What becomes of a request, given whether the rate limit of its principal
/// leaves room.
pub open spec fn rated_verdict(request_id: Seq<char>, allowed: bool) -> VerdictView {
    if allowed {
        VerdictView::Pass
    } else {
        refused(429, "rate_limited"@, "tenant request rate exceeded"@, request_id)
    }
}

/// What becomes of a request, given what the rate limits say.
pub open spec fn settled_verdict(
    p: PolicyView,
    f: FactsView,
    request_id: Seq<char>,
    global_allowed: bool,
    principal_allowed: bool,
) -> VerdictView {
    match first_verdict(p, f, request_id, global_allowed) {
        VerdictView::CheckRate(_) => rated_verdict(request_id, principal_allowed),
        other => other,
    }
}

/// The policy once a request of a principal was held against the rate limit of
/// the tenants.
pub open spec fn after_rated(p: PolicyView, principal: Seq<char>, now_ns: u64) -> PolicyView {
    match p.tenant_limit {
        None => p,
        Some(t) => PolicyView {
            tenant_limit: Some(
                TenantLimitView {
                    tenants: after_admission(
                        before_request(t.tenants, t.cap, t.requests, principal, now_ns),
                        t.cap,
                        principal,
                        now_ns,
                    ),
                    requests: ((t.requests + 1) % 0x1_0000_0000_0000_0000) as u64,
                    ..t
                },
            ),
            ..p
        },
    }
}

/// The rate limit of the tenants has a place for a principal.
pub open spec fn has_place(p: PolicyView, principal: Seq<char>, now_ns: u64) -> bool {
    match p.tenant_limit {
        None => true,
        Some(t) => has_room(
            before_request(t.tenants, t.cap, t.requests, principal, now_ns),
            t.cap,
            principal,
        ),
    }
}

fn refuse(status: u16, code: &'static str, message: &str, request_id: &str) -> (r: Verdict)
    ensures
        r@ == refused(status, code@, message@, request_id@),
{
    let none: Vec<FieldError> = Vec::new();
    assert(detail_views(none@) =~= Seq::empty());
    Verdict::Refuse(structured_error(request_id, status, code, message, &none))
}

impl View for SecurityPolicy {
    type V = PolicyView;

    closed spec fn view(&self) -> PolicyView {
        PolicyView {
            require_api_key: self.require_api_key,
            api_keys: texts(self.api_keys@),
            require_tenant_id: self.require_tenant_id,
            global_quota: match self.global_limiter {
                Some(l) => Some(l.quota()),
                None => None,
            },
            tenant_limit: match self.tenant_limiter {
                Some(l) => Some(
                    TenantLimitView {
                        quota: l.quota(),
                        cap: l.cap(),
                        tenants: l.tenants(),
                        requests: l.requests(),
                    },
                ),
                None => None,
            },
            metrics_require_api_key: self.metrics_require_api_key,
            origins: texts(self.cors_allowed_origins@),
        }
    }
}

impl SecurityPolicy {
    /// The tenants that are tracked stay under their cap.
    pub closed spec fn wf(&self) -> bool {
        match self.tenant_limiter {
            Some(l) => l.wf(),
            None => true,
        }
    }

    /// The policy that a configuration asks for.
    pub fn from_config(config: &ServerConfig) -> (r: Result<Self, String>)
        ensures
            match r {
                Ok(p) => policy_problem(*config) is None && p.wf() && p@ == policy_of(*config),
                Err(e) => policy_problem(*config) == Some(e@),
            },
    {
        if config.security_require_api_key && config.security_api_keys.len() == 0 {
            return Err(owned(NO_KEYS_PROBLEM));
        }
        match validate_tenant_auth_config(
            config.security_require_api_key,
            config.security_require_tenant_id,
        ) {
            Ok(_) => {},
            Err(e) => {
                return Err(e);
            },
        }
        if config.security_tenant_rps.is_some() && config.security_tenant_slots == 0 {
            return Err(owned(NO_SLOTS_PROBLEM));
        }
        let global_limiter = match config.security_global_rps {
            Some(limit) => Some(GlobalRateLimiter::new(limit)),
            None => None,
        };
        let tenant_limiter = match config.security_tenant_rps {
            Some(limit) => Some(TenantRateLimiter::new(limit, config.security_tenant_slots)),
            None => None,
        };
        Ok(
            SecurityPolicy {
                require_api_key: config.security_require_api_key,
                api_keys: owned_list(&config.security_api_keys),
                require_tenant_id: config.security_require_tenant_id,
                global_limiter,
                tenant_limiter,
                metrics_require_api_key: config.security_metrics_require_api_key,
                cors_allowed_origins: normalize_cors_origins(&config.cors_allowed_origins),
            },
        )
    }

    /// The policy that asks nothing of anybody and knows no origin.
    pub fn from_config_for_tests() -> (r: Self)
        ensures
            r.wf(),
            r@ == (PolicyView {
                require_api_key: false,
                api_keys: Seq::empty(),
                require_tenant_id: false,
                global_quota: None,
                tenant_limit: None,
                metrics_require_api_key: false,
                origins: Seq::empty(),
            }),
    {
        let r = SecurityPolicy {
            require_api_key: false,
            api_keys: Vec::new(),
            require_tenant_id: false,
            global_limiter: None,
            tenant_limiter: None,
            metrics_require_api_key: false,
            cors_allowed_origins: Vec::new(),
        };
        assert(r@.api_keys =~= Seq::empty());
        assert(r@.origins =~= Seq::empty());
        r
    }

    /// A policy without rate limits.
    pub fn from_test_policy(
        require_api_key: bool,
        api_keys: Vec<String>,
        require_tenant_id: bool,
        metrics_require_api_key: bool,
        cors_allowed_origins: Vec<String>,
    ) -> (r: Self)
        ensures
            r.wf(),
            r@ == (PolicyView {
                require_api_key,
                api_keys: texts(api_keys@),
                require_tenant_id,
                global_quota: None,
                tenant_limit: None,
                metrics_require_api_key,
                origins: normalized_origins(texts(cors_allowed_origins@)),
            }),
    {
        SecurityPolicy {
            require_api_key,
            api_keys,
            require_tenant_id,
            global_limiter: None,
            tenant_limiter: None,
            metrics_require_api_key,
            cors_allowed_origins: normalize_cors_origins(&cors_allowed_origins),
        }
    }

    /// Whether nothing is asked of anybody.
    pub fn allows_open_access(&self) -> (r: bool)
        ensures
            r == is_open(self@),
    {
        !self.require_api_key && !self.require_tenant_id && self.global_limiter.is_none()
            && self.tenant_limiter.is_none()
    }

    /// Whether an API key is known.
    pub fn api_key_matches(&self, api_key: &str) -> (r: bool)
        ensures
            r == self@.api_keys.contains(api_key@),
    {
        let ghost keys = texts(self.api_keys@);
        let mut i: usize = 0;
        while i < self.api_keys.len()
            invariant
                keys == texts(self.api_keys@),
                i <= self.api_keys@.len(),
                forall|j: int| 0 <= j < i ==> #[trigger] keys[j] != api_key@,
            decreases self.api_keys@.len() - i,
        {
            proof {
                vstd::utf8::encode_utf8_decode_utf8(self.api_keys@[i as int]@);
                vstd::utf8::encode_utf8_decode_utf8(api_key@);
            }
            if constant_time_eq(self.api_keys[i].as_str().as_bytes(), api_key.as_bytes()) {
                assert(keys[i as int] == api_key@);
                return true;
            }
            assert(keys[i as int] == self.api_keys@[i as int]@);
            i += 1;
        }
        false
    }

    /// Whether browsers may ask from an origin.
    pub fn is_origin_allowed(&self, origin: &str) -> (r: bool)
        ensures
            r == origin_allowed(self@, origin@),
    {
        has_text(&self.cors_allowed_origins, "*") || has_text(&self.cors_allowed_origins, origin)
    }

    /// The origin that a reply names, and whether the reply varies with it.
    pub fn cors_origin_header(&self, origin: Option<&str>) -> (r: Option<(String, bool)>)
        ensures
            match r {
                Some(named) => named_origin(self@, opt_str(origin)) == Some((named.0@, named.1)),
                None => named_origin(self@, opt_str(origin)) is None,
            },
    {
        match origin {
            None => None,
            Some(o) => {
                if has_text(&self.cors_allowed_origins, "*") {
                    return Some((owned("*"), false));
                }
                if !self.is_origin_allowed(o) {
                    return None;
                }
                if fits_header(o) {
                    Some((owned(o), true))
                } else {
                    None
                }
            },
        }
    }

    /// The key of a caller: by the hash of an API key that the policy knows,
    /// else the public one.
    pub fn principal_key(&self, facts: &RequestFacts) -> (r: String)
        requires
            facts@.fits(),
        ensures
            r@ == principal_of(self@, facts@),
    {
        match &facts.api_key {
            Some(k) => {
                if self.api_key_matches(k.as_str()) {
                    let mut out = owned("api-key:");
                    out.push_str(strong_hash_hex(k.as_str()).as_str());
                    return out;
                }
            },
            None => {},
        }
        owned("public")
    }

    fn refuse_key(&self, facts: &RequestFacts, request_id: &str) -> (r: Option<Verdict>)
        ensures
            match r {
                Some(v) => key_refusal(self@, facts@, request_id@) == Some(v@),
                None => key_refusal(self@, facts@, request_id@) is None,
            },
    {
        match &facts.api_key {
            None => Some(refuse(401, "unauthorized", "missing x-api-key header", request_id)),
            Some(k) => {
                if self.api_key_matches(k.as_str()) {
                    None
                } else {
                    Some(refuse(401, "unauthorized", "invalid api key", request_id))
                }
            },
        }
    }

    /// What becomes of a request, given whether the limit on all callers
    /// together leaves room.
    pub fn judge(&self, facts: &RequestFacts, request_id: &str, global_allowed: bool) -> (r: Verdict)
        requires
            facts@.fits(),
        ensures
            r@ == first_verdict(self@, facts@, request_id@, global_allowed),
    {
        if !global_allowed {
            return refuse(429, "rate_limited", "global request rate exceeded", request_id);
        }
        if facts.is_options && facts.has_origin && facts.has_request_method {
            return match &facts.origin {
                None => refuse(400, "validation_error", "missing origin header", request_id),
                Some(o) => if self.is_origin_allowed(o.as_str()) {
                    Verdict::Preflight
                } else {
                    refuse(
                        403,
                        "cors_forbidden",
                        "origin is not allowed by cors policy",
                        request_id,
                    )
                },
            };
        }
        if same(facts.path.as_str(), "/v1/health") {
            return Verdict::Pass;
        }
        if same(facts.path.as_str(), "/v1/metrics") && self.metrics_require_api_key {
            if self.api_keys.len() == 0 {
                return refuse(
                    503,
                    "metrics_unavailable",
                    "metrics authentication is enabled but no api keys are configured",
                    request_id,
                );
            }
            match self.refuse_key(facts, request_id) {
                Some(v) => {
                    return v;
                },
                None => {},
            }
            if self.tenant_limiter.is_some() {
                return Verdict::CheckRate(self.principal_key(facts));
            }
            return Verdict::Pass;
        }
        if self.allows_open_access() {
            return Verdict::Pass;
        }
        if self.require_api_key {
            match self.refuse_key(facts, request_id) {
                Some(v) => {
                    return v;
                },
                None => {},
            }
        }
        if self.require_tenant_id && facts.tenant_id.is_none() {
            return refuse(401, "unauthorized", "missing x-tenant-id header", request_id);
        }
        if self.tenant_limiter.is_some() {
            if facts.tenant_id.is_none() {
                return refuse(
                    401,
                    "unauthorized",
                    "x-tenant-id header is required when tenant rate limiting is enabled",
                    request_id,
                );
            }
            return Verdict::CheckRate(self.principal_key(facts));
        }
        Verdict::Pass
    }

    /// Whether the limit on all callers together leaves room. Without such a
    /// limit it does; with one, the limiter decides by the time.
    pub fn allows_globally(&self) -> (r: bool)
        ensures
            self@.global_quota is None ==> r,
    {
        match &self.global_limiter {
            Some(l) => l.allow(),
            None => true,
        }
    }

    /// Whether the rate limit of a principal leaves room. Without such a limit
    /// it does; with one, a principal without a place is turned away and of the
    /// others the limiter decides by the time.
    pub fn allows_principal(&mut self, principal: &String, now_ns: u64) -> (r: bool)
        requires
            old(self).wf(),
        ensures
            final(self).wf(),
            final(self)@ == after_rated(old(self)@, principal@, now_ns),
            r ==> has_place(old(self)@, principal@, now_ns),
            old(self)@.tenant_limit is None ==> r,
    {
        match &mut self.tenant_limiter {
            Some(l) => l.allow(principal, now_ns),
            None => true,
        }
    }

    /// What becomes of a request.
    pub fn enforce_security(
        &mut self,
        facts: &RequestFacts,
        request_id: &str,
        now_ns: u64,
    ) -> (r: Verdict)
        requires
            old(self).wf(),
            facts@.fits(),
        ensures
            final(self).wf(),
            exists|global_allowed: bool, principal_allowed: bool|
                {
                    &&& r@ == #[trigger] settled_verdict(
                        old(self)@,
                        facts@,
                        request_id@,
                        global_allowed,
                        principal_allowed,
                    )
                    &&& old(self)@.global_quota is None ==> global_allowed
                    &&& match first_verdict(old(self)@, facts@, request_id@, global_allowed) {
                        VerdictView::CheckRate(principal) => {
                            &&& final(self)@ == after_rated(old(self)@, principal, now_ns)
                            &&& principal_allowed ==> has_place(old(self)@, principal, now_ns)
                        },
                        _ => final(self)@ == old(self)@,
                    }
                },
    {
        let ghost before = self@;
        let global_allowed = self.allows_globally();
        match self.judge(facts, request_id, global_allowed) {
            Verdict::CheckRate(principal) => {
                let allowed = self.allows_principal(&principal, now_ns);
                assert(settled_verdict(before, facts@, request_id@, global_allowed, allowed)
                    == rated_verdict(request_id@, allowed));
                judge_rate(request_id, allowed)
            },
            verdict => {
                assert(verdict@ == settled_verdict(
                    before,
                    facts@,
                    request_id@,
                    global_allowed,
                    true,
                ));
                verdict
            },
        }
    }
}

/// What becomes of a request, given whether the rate limit of its principal
/// leaves room.
pub fn judge_rate(request_id: &str, allowed: bool) -> (r: Verdict)
    ensures
        r@ == rated_verdict(request_id@, allowed),
{
    if allowed {
        Verdict::Pass
    } else {
        refuse(429, "rate_limited", "tenant request rate exceeded", request_id)
    }
}

/// A line of a reply's head.
#[derive(Debug)]
pub struct HeaderLine {
    pub name: &'static str,
    pub value: String,
}

impl View for HeaderLine {
    type V = (Seq<char>, Seq<char>);

    open spec fn view(&self) -> (Seq<char>, Seq<char>) {
        (self.name@, self.value@)
    }
}

/// The headers that every reply has.
pub open spec fn security_headers() -> Seq<(Seq<char>, Seq<char>)> {
    seq![
        ("x-content-type-options"@, "nosniff"@),
        ("x-frame-options"@, "DENY"@),
        ("referrer-policy"@, "no-referrer"@),
        ("cache-control"@, "no-store"@),
        ("content-security-policy"@, "default-src 'none'; frame-ancestors 'none'"@),
        ("strict-transport-security"@, "max-age=63072000; includeSubDomains"@),
        ("permissions-policy"@, "camera=(), microphone=(), geolocation=()"@),
    ]
}

/// The headers by which a browser learns that it may read a reply, and which
/// lines of its head.
pub open spec fn origin_headers(
    p: PolicyView,
    origin: Option<Seq<char>>,
) -> Seq<(Seq<char>, Seq<char>)> {
    match named_origin(p, origin) {
        None => Seq::empty(),
        Some(named) => {
            let lines = seq![
                ("access-control-allow-origin"@, named.0),
                ("access-control-expose-headers"@, "location,x-vidarax-run-id"@),
            ];
            if named.1 {
                lines.push(("vary"@, "origin"@))
            } else {
                lines
            }
        },
    }
}

/// The headers that tell a browser what it may ask.
pub open spec fn preflight_headers() -> Seq<(Seq<char>, Seq<char>)> {
    seq![
        ("access-control-allow-methods"@, "GET,POST,PATCH,DELETE,OPTIONS"@),
        (
            "access-control-allow-headers"@,
            "content-type,x-api-key,x-tenant-id,x-attach-config"@,
        ),
        ("access-control-max-age"@, "600"@),
    ]
}

/// The headers that a policy adds to a reply.
pub open spec fn added_headers(
    p: PolicyView,
    origin: Option<Seq<char>>,
    preflight: bool,
) -> Seq<(Seq<char>, Seq<char>)> {
    let lines = security_headers() + origin_headers(p, origin);
    if preflight {
        lines + preflight_headers()
    } else {
        lines
    }
}

fn put_line(lines: &mut Vec<HeaderLine>, name: &'static str, value: &str)
    ensures
        views(final(lines)@) == views(old(lines)@).push((name@, value@)),
{
    let ghost before = views(lines@);
    lines.push(HeaderLine { name, value: owned(value) });
    assert(views(lines@) =~= before.push((name@, value@)));
}

impl SecurityPolicy {
    /// The headers that a reply to an origin gets, and those that a reply to a
    /// browser that asks for leave gets beside.
    pub fn finalize_response(&self, origin: Option<&str>, preflight: bool) -> (r: Vec<HeaderLine>)
        ensures
            views(r@) == added_headers(self@, opt_str(origin), preflight),
    {
        let mut lines: Vec<HeaderLine> = Vec::new();
        put_line(&mut lines, "x-content-type-options", "nosniff");
        put_line(&mut lines, "x-frame-options", "DENY");
        put_line(&mut lines, "referrer-policy", "no-referrer");
        put_line(&mut lines, "cache-control", "no-store");
        put_line(
            &mut lines,
            "content-security-policy",
            "default-src 'none'; frame-ancestors 'none'",
        );
        put_line(
            &mut lines,
            "strict-transport-security",
            "max-age=63072000; includeSubDomains",
        );
        put_line(
            &mut lines,
            "permissions-policy",
            "camera=(), microphone=(), geolocation=()",
        );
        assert(views(lines@) =~= security_headers());
        match self.cors_origin_header(origin) {
            Some(named) => {
                put_line(&mut lines, "access-control-allow-origin", named.0.as_str());
                put_line(
                    &mut lines,
                    "access-control-expose-headers",
                    "location,x-vidarax-run-id",
                );
                if named.1 {
                    put_line(&mut lines, "vary", "origin");
                }
            },
            None => {},
        }
        assert(views(lines@) =~= security_headers() + origin_headers(self@, opt_str(origin)));
        if preflight {
            let ghost before = views(lines@);
            put_line(&mut lines, "access-control-allow-methods", "GET,POST,PATCH,DELETE,OPTIONS");
            put_line(
                &mut lines,
                "access-control-allow-headers",
                "content-type,x-api-key,x-tenant-id,x-attach-config",
            );
            put_line(&mut lines, "access-control-max-age", "600");
            assert(views(lines@) =~= before + preflight_headers());
        }
        lines
    }
}

/// Where keys are asked for, only a request with a known key is carried out,
/// but for the health of the server and for the metrics where those are open.
pub proof fn unknown_callers_are_refused(
    p: PolicyView,
    f: FactsView,
    request_id: Seq<char>,
    global_allowed: bool,
    principal_allowed: bool,
)
    requires
        p.require_api_key,
        !(f.api_key is Some && p.api_keys.contains(f.api_key->0)),
        f.path != "/v1/health"@,
    ensures
        settled_verdict(p, f, request_id, global_allowed, principal_allowed) !is Pass,
        !is_preflight(f) && global_allowed && !(f.path == "/v1/metrics"@
            && p.metrics_require_api_key && p.api_keys.len() == 0) ==> settled_verdict(
            p,
            f,
            request_id,
            global_allowed,
            principal_allowed,
        ) == refused(
            401,
            "unauthorized"@,
            if f.api_key is Some {
                "invalid api key"@
            } else {
                "missing x-api-key header"@
            },
            request_id,
        ),
{
}

/// A caller cannot change the rate limit that it is held against by what it
/// says of tenants.
pub proof fn principals_do_not_depend_on_tenants(
    p: PolicyView,
    f: FactsView,
    tenant_id: Option<Seq<char>>,
)
    ensures
        principal_of(p, FactsView { tenant_id, ..f }) == principal_of(p, f),
{
}

/// Two callers with known keys of different hashes are held against different
/// rate limits, and neither against that of the public.
pub proof fn keys_have_rates_of_their_own(p: PolicyView, f: FactsView, g: FactsView)
    requires
        f.api_key is Some && p.api_keys.contains(f.api_key->0),
        g.api_key is Some && p.api_keys.contains(g.api_key->0),
        strong_hash(f.api_key->0) != strong_hash(g.api_key->0),
    ensures
        principal_of(p, f) != principal_of(p, g),
        principal_of(p, f) != "public"@,
{
    reveal_strlit("api-key:");
    reveal_strlit("public");
    let prefix = "api-key:"@;
    assert(prefix.len() == 8);
    assert(principal_of(p, f).skip(8) =~= strong_hash(f.api_key->0));
    assert(principal_of(p, g).skip(8) =~= strong_hash(g.api_key->0));
    assert(principal_of(p, f).len() >= 8);
    assert("public"@.len() == 6);
}

/// A reply names an origin only where the policy lists that origin or all.
pub proof fn unlisted_origins_are_not_named(p: PolicyView, origin: Seq<char>)
    requires
        !origin_allowed(p, origin),
    ensures
        origin_headers(p, Some(origin)) == Seq::<(Seq<char>, Seq<char>)>::empty(),
        forall|request_id: Seq<char>|
            #[trigger] preflight_verdict(p, Some(origin), request_id) !is Preflight,
{
}

/// Normalized origins are distinct, and none is blank.
pub proof fn normalized_origins_are_distinct(origins: Seq<Seq<char>>)
    ensures
        normalized_origins(origins).no_duplicates(),
        forall|i: int|
            0 <= i < normalized_origins(origins).len() ==> (#[trigger] normalized_origins(
                origins,
            )[i]).len() > 0,
    decreases origins.len(),
{
    if origins.len() > 0 {
        normalized_origins_are_distinct(origins.drop_last());
    }
}

/// Without a preflight, a request passes, at once or once its rate is known,
/// exactly if the server is not overrun and it asks for the health, or shows
/// what the policy asks for: a listed key for the metrics where they are
/// guarded; elsewhere a listed key and a tenant where each is asked for, and a
/// tenant where tenants have a rate.
pub proof fn requests_pass_with_what_is_asked_for(
    p: PolicyView,
    f: FactsView,
    request_id: Seq<char>,
    global_allowed: bool,
)
    requires
        !(f.is_options && f.has_origin && f.has_request_method),
    ensures
        ({
            let verdict = first_verdict(p, f, request_id, global_allowed);
            let has_key = f.api_key is Some && p.api_keys.contains(f.api_key->0);
            let guarded_metrics = f.path == "/v1/metrics"@ && p.metrics_require_api_key;
            &&& verdict !is Refuse <==> global_allowed && (f.path == "/v1/health"@ || {
                if guarded_metrics {
                    has_key
                } else {
                    &&& p.require_api_key ==> has_key
                    &&& p.require_tenant_id || p.tenant_limit is Some ==> f.tenant_id is Some
                }
            })
            &&& verdict is CheckRate ==> p.tenant_limit is Some && f.path != "/v1/health"@
            &&& verdict is Pass && f.path != "/v1/health"@ ==> p.tenant_limit is None
            &&& verdict !is Preflight
            &&& !global_allowed ==> verdict->Refuse_0.status == 429
            &&& global_allowed && verdict is Refuse ==> verdict->Refuse_0.status == 401
                || guarded_metrics && p.api_keys.len() == 0 && verdict->Refuse_0.status == 503
        }),
{
    reveal_strlit("/v1/health");
    reveal_strlit("/v1/metrics");
    assert("/v1/health"@.len() == 10 && "/v1/metrics"@.len() == 11);
}

/// A preflight is answered exactly if the server is not overrun and its origin
/// can be read and is listed, or all are.
pub proof fn preflights_are_answered_for_listed_origins(
    p: PolicyView,
    f: FactsView,
    request_id: Seq<char>,
    global_allowed: bool,
)
    requires
        f.is_options && f.has_origin && f.has_request_method,
    ensures
        ({
            let verdict = first_verdict(p, f, request_id, global_allowed);
            &&& verdict is Preflight <==> global_allowed && f.origin is Some && (
            p.origins.contains(f.origin->0) || p.origins.contains("*"@))
            &&& verdict is Preflight || verdict is Refuse
            &&& global_allowed && f.origin is None ==> verdict->Refuse_0.status == 400
            &&& global_allowed && f.origin is Some && verdict is Refuse
                ==> verdict->Refuse_0.status == 403
        }),
{
}

/// A request whose rate is asked for passes exactly if it is within its rate,
/// and is else told to wait.
pub proof fn overrun_callers_are_told_to_wait(
    p: PolicyView,
    f: FactsView,
    request_id: Seq<char>,
    global_allowed: bool,
    principal_allowed: bool,
)
    ensures
        ({
            let first = first_verdict(p, f, request_id, global_allowed);
            let last = settled_verdict(p, f, request_id, global_allowed, principal_allowed);
            &&& first !is CheckRate ==> last == first
            &&& first is CheckRate && principal_allowed ==> last is Pass
            &&& first is CheckRate && !principal_allowed ==> last is Refuse
                && last->Refuse_0.status == 429
        }),
{
}

/// A policy is made exactly if it can be kept: keys that are asked for are
/// listed, tenants are not asked for without keys, and tenants that have a rate
/// have places.
pub proof fn policies_can_be_kept(config: ServerConfig)
    ensures
        policy_problem(config) is None <==> {
            &&& config.security_require_api_key ==> config.security_api_keys@.len() > 0
            &&& config.security_require_tenant_id ==> config.security_require_api_key
            &&& config.security_tenant_rps is Some ==> config.security_tenant_slots > 0
        },
        ({
            let p = policy_of(config);
            &&& p.require_api_key == config.security_require_api_key
            &&& p.require_tenant_id == config.security_require_tenant_id
            &&& p.metrics_require_api_key == config.security_metrics_require_api_key
            &&& p.global_quota is Some <==> config.security_global_rps is Some
            &&& p.tenant_limit is Some <==> config.security_tenant_rps is Some
            &&& p.api_keys.len() == config.security_api_keys@.len()
            &&& forall|i: int| #![trigger p.api_keys[i]]
                0 <= i < p.api_keys.len() ==> p.api_keys[i] == config.security_api_keys@[i]@
        }),
{
}

/// The origins that are kept are those that were listed, without the blanks
/// around them and without the empty ones, and no others.
pub proof fn kept_origins_are_those_listed(origins: Seq<Seq<char>>)
    ensures
        forall|o: Seq<char>| #[trigger]
            normalized_origins(origins).contains(o) <==> o.len() > 0 && exists|i: int|
                0 <= i < origins.len() && trimmed(#[trigger] origins[i]) == o,
    decreases origins.len(),
{
    if origins.len() > 0 {
        let rest = origins.drop_last();
        let before = normalized_origins(rest);
        let now = normalized_origins(origins);
        let t = trimmed(origins.last());
        kept_origins_are_those_listed(rest);
        assert forall|o: Seq<char>| #[trigger] now.contains(o) <==> o.len() > 0 && exists|i: int|
            0 <= i < origins.len() && trimmed(#[trigger] origins[i]) == o by {
            if before.contains(o) {
                let k = choose|k: int| 0 <= k < before.len() && before[k] == o;
                assert(now[k] == o);
                let i = choose|i: int| 0 <= i < rest.len() && trimmed(#[trigger] rest[i]) == o;
                assert(origins[i] == rest[i]);
            }
            if o == t && o.len() > 0 {
                assert(trimmed(origins[origins.len() - 1]) == o);
                if !before.contains(t) {
                    assert(now[before.len() as int] == o);
                }
            }
            if now.contains(o) && !before.contains(o) {
                let k = choose|k: int| 0 <= k < now.len() && now[k] == o;
                if k < before.len() {
                    assert(before[k] == o);
                }
                assert(o == t);
            }
            if exists|i: int| 0 <= i < origins.len() && trimmed(#[trigger] origins[i]) == o {
                let i = choose|i: int| 0 <= i < origins.len() && trimmed(#[trigger] origins[i]) == o;
                if i < rest.len() {
                    assert(rest[i] == origins[i]);
                } else {
                    assert(o == t);
                }
            }
        }
    }
}

/// Every answer carries the lines that keep browsers safe; a preflight's also
/// those that allow the methods and headers, and an answer to a listed origin
/// the line that names it.
pub proof fn answers_carry_their_lines(p: PolicyView, origin: Option<Seq<char>>, preflight: bool)
    ensures
        ({
            let lines = added_headers(p, origin, preflight);
            let named = origin is Some && (p.origins.contains("*"@) || p.origins.contains(
                origin->0,
            ) && is_header_text(origin->0));
            &&& lines[0] == ("x-content-type-options"@, "nosniff"@)
            &&& lines[1] == ("x-frame-options"@, "DENY"@)
            &&& lines[2] == ("referrer-policy"@, "no-referrer"@)
            &&& lines[3] == ("cache-control"@, "no-store"@)
            &&& lines[4] == (
                "content-security-policy"@,
                "default-src 'none'; frame-ancestors 'none'"@,
            )
            &&& lines[5] == (
                "strict-transport-security"@,
                "max-age=63072000; includeSubDomains"@,
            )
            &&& lines[6] == (
                "permissions-policy"@,
                "camera=(), microphone=(), geolocation=()"@,
            )
            &&& named ==> lines[7] == (
                "access-control-allow-origin"@,
                if p.origins.contains("*"@) {
                    "*"@
                } else {
                    origin->0
                },
            ) && lines[8] == ("access-control-expose-headers"@, "location,x-vidarax-run-id"@)
            &&& named && !p.origins.contains("*"@) ==> lines[9] == ("vary"@, "origin"@)
            &&& lines.len() == 7 + (if !named {
                0int
            } else if p.origins.contains("*"@) {
                2
            } else {
                3
            }) + if preflight {
                3int
            } else {
                0
            }
            &&& preflight ==> lines[lines.len() - 3] == (
                "access-control-allow-methods"@,
                "GET,POST,PATCH,DELETE,OPTIONS"@,
            ) && lines[lines.len() - 2] == (
                "access-control-allow-headers"@,
                "content-type,x-api-key,x-tenant-id,x-attach-config"@,
            ) && lines[lines.len() - 1] == ("access-control-max-age"@, "600"@)
        }),
{
}

} // verus!
