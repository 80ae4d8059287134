use vidarax_api::auth::strong_hash_hex;
use vidarax_api::config::{DistillationConfig, GateConfig, ServerConfig, TransportMode};
use vidarax_api::ieee::Single;
use vidarax_api::rate_limit::{
    quota_per_second, GlobalRateLimiter, TenantRateLimiter, TenantSlots, IDLE_TENANT_RETENTION_NS,
};
use vidarax_api::security::{
    constant_time_eq, judge_rate, normalize_cors_origins, HeaderLine, RequestFacts, SecurityPolicy,
    Verdict, NO_KEYS_PROBLEM, NO_SLOTS_PROBLEM,
};

fn number(v: f32) -> Single {
    Single { bits: v.to_bits() }
}

fn config() -> ServerConfig {
    ServerConfig {
        bind_addr: "127.0.0.1:8080".to_string(),
        h3_bind_addr: "127.0.0.1:8443".to_string(),
        h3_tls_cert_path: "deploy/certs/dev.crt".to_string(),
        h3_tls_key_path: "deploy/certs/dev.key".to_string(),
        data_dir: ".vidarax-data".to_string(),
        ingest_file_roots: vec![],
        inference_vllm_base_url: None,
        inference_sglang_base_url: None,
        security_require_api_key: false,
        security_api_keys: vec![],
        security_require_tenant_id: false,
        security_global_rps: None,
        security_tenant_rps: None,
        security_tenant_slots: 16,
        security_metrics_require_api_key: false,
        cors_allowed_origins: vec![],
        stream_ttl_secs: 3600,
        active_stream_limit: 5,
        transport: TransportMode::H1H2,
        decode_backend: "cpu-ffmpeg".to_string(),
        webrtc_stun_servers: vec!["stun:stun.l.google.com:19302".to_string()],
        webrtc_turn_url: None,
        webrtc_turn_username: None,
        webrtc_turn_credential: None,
        spacetimedb_url: None,
        spacetimedb_module: None,
        webrtc_max_output_tokens_per_second: 128,
        webrtc_decode_workers: 2,
        webrtc_analysis_workers: 1,
        webrtc_vlm_workers: 2,
        webrtc_first_pass_model: "Qwen/Qwen3-VL-8B-Instruct".to_string(),
        webrtc_second_pass_model: None,
        webrtc_second_pass_threshold: number(0.7),
        webrtc_second_pass_max_tokens: 256,
        gate_config: GateConfig {
            keepalive_every_frames: 30,
            scene_cut_hamming_threshold: 12,
            luma_shift_threshold: number(0.2),
            flicker_threshold: number(0.3),
            ghosting_threshold: number(0.4),
            noise_variance_threshold: number(0.5),
        },
        distillation: DistillationConfig {
            enabled: false,
            embedding_server_url: None,
            teacher_model: "Qwen/Qwen3-VL-8B-Instruct".to_string(),
            max_pairs_per_tenant: 10_000,
            collection_rate: number(0.1),
            distance_threshold: number(0.2),
            knn_k: 7,
        },
    }
}

fn request(path: &str, api_key: Option<&str>, tenant_id: Option<&str>) -> RequestFacts {
    RequestFacts {
        is_options: false,
        path: path.to_string(),
        origin: None,
        has_origin: false,
        has_request_method: false,
        api_key: api_key.map(|k| k.to_string()),
        tenant_id: tenant_id.map(|t| t.to_string()),
    }
}

fn preflight(origin: &str) -> RequestFacts {
    RequestFacts {
        is_options: true,
        path: "/v1/runs".to_string(),
        origin: Some(origin.to_string()),
        has_origin: true,
        has_request_method: true,
        api_key: None,
        tenant_id: None,
    }
}

fn status(verdict: Verdict) -> u16 {
    match verdict {
        Verdict::Refuse(reply) => reply.status,
        Verdict::Preflight => 204,
        Verdict::Pass => 200,
        Verdict::CheckRate(_) => panic!("a rate that is still to be checked"),
    }
}

fn header<'a>(lines: &'a Vec<HeaderLine>, name: &str) -> Option<&'a str> {
    lines.iter().find(|line| line.name == name).map(|line| line.value.as_str())
}

fn policy_for(origins: Vec<String>) -> SecurityPolicy {
    SecurityPolicy::from_test_policy(false, vec![], false, false, origins)
}

#[test]
fn governor_global_limiter_enforces_burst_limit() {
    let limiter = GlobalRateLimiter::new(2);
    assert!(limiter.allow());
    assert!(limiter.allow());
    assert!(!limiter.allow());
}

#[test]
fn keyed_governor_limiter_isolated_by_tenant_id() {
    let mut limiter = TenantRateLimiter::new(1, 8);
    let tenant_a = "tenant-a".to_string();
    let tenant_b = "tenant-b".to_string();
    assert!(limiter.allow(&tenant_a, 0));
    assert!(!limiter.allow(&tenant_a, 0));
    assert!(limiter.allow(&tenant_b, 0));
}

#[test]
fn keyed_governor_limiter_honors_tenant_slot_cap() {
    let mut limiter = TenantRateLimiter::new(100, 2);
    let tenant_a = "tenant-a".to_string();
    let tenant_b = "tenant-b".to_string();
    let tenant_c = "tenant-c".to_string();

    assert!(limiter.allow(&tenant_a, 0));
    assert!(limiter.allow(&tenant_b, 0));
    assert!(!limiter.allow(&tenant_c, 0));
    assert!(limiter.allow(&tenant_a, 0));
    assert_eq!(limiter.tracked_tenants(), 2);
}

#[test]
fn keyed_governor_limiter_evicts_idle_tenants() {
    let mut limiter = TenantRateLimiter::new(100, 1);
    let tenant_a = "tenant-a".to_string();
    let tenant_b = "tenant-b".to_string();

    assert!(limiter.allow(&tenant_a, 0));
    assert!(!limiter.allow(&tenant_b, 0));
    assert!(limiter.allow(&tenant_b, IDLE_TENANT_RETENTION_NS + 500_000_000));
    assert_eq!(limiter.tracked_tenants(), 1);
}

#[test]
fn keyed_governor_limiter_does_not_bypass_at_second_boundary() {
    const LIMIT: u64 = 8;
    let mut limiter = TenantRateLimiter::new(LIMIT, 8);
    let tenant = "tenant-boundary".to_string();
    for _ in 0..LIMIT {
        assert!(limiter.allow(&tenant, 999_999_999));
    }
    assert!(!limiter.allow(&tenant, 999_999_999));

    let mut allowed = 0u64;
    for _ in 0..64 {
        if limiter.allow(&tenant, 1_000_000_001) {
            allowed += 1;
        }
    }
    assert!(allowed <= LIMIT, "allowed {allowed} requests across second boundary with limit {LIMIT}");

    let fresh = "tenant-fresh".to_string();
    for _ in 0..LIMIT {
        assert!(limiter.allow(&fresh, 1_000_000_001), "fresh tenant should receive its full quota");
    }
    assert!(!limiter.allow(&fresh, 1_000_000_001));
}

#[test]
fn quotas_are_at_least_one_and_fit() {
    assert_eq!(quota_per_second(0), 1);
    assert_eq!(quota_per_second(7), 7);
    assert_eq!(quota_per_second(u64::MAX), u32::MAX);
}

#[test]
fn slots_keep_recent_tenants_and_let_idle_ones_go() {
    let mut slots = TenantSlots::new(2);
    assert!(slots.admit_tenant(&"a".to_string(), 0));
    assert!(slots.admit_tenant(&"b".to_string(), IDLE_TENANT_RETENTION_NS / 2));
    assert!(!slots.admit_tenant(&"c".to_string(), IDLE_TENANT_RETENTION_NS / 2));
    slots.retain_recent(IDLE_TENANT_RETENTION_NS + 1);
    assert_eq!(slots.len(), 1);
    assert!(slots.admit_tenant(&"c".to_string(), IDLE_TENANT_RETENTION_NS + 1));
}

#[test]
fn cors_policy_honors_exact_allowlist() {
    let policy = policy_for(vec!["https://app.example.com".to_string()]);
    assert!(policy.is_origin_allowed("https://app.example.com"));
    assert!(!policy.is_origin_allowed("https://evil.example.com"));
}

#[test]
fn constant_time_key_compare_matches_expected() {
    assert!(constant_time_eq(b"abc", b"abc"));
    assert!(!constant_time_eq(b"abc", b"ab"));
    assert!(!constant_time_eq(b"abc", b"abd"));
}

#[test]
fn security_policy_rejects_missing_api_key() {
    let mut config = config();
    config.security_require_api_key = true;
    config.security_api_keys = vec!["test-key".to_string()];
    let mut policy = SecurityPolicy::from_config(&config).unwrap();
    assert_eq!(status(policy.enforce_security(&request("/v1/runs", None, None), "req-1", 0)), 401);
    assert_eq!(
        status(policy.enforce_security(&request("/v1/runs", Some("test-key"), None), "req-2", 0)),
        200
    );
    assert_eq!(
        status(policy.enforce_security(&request("/v1/runs", Some("other"), None), "req-3", 0)),
        401
    );
    assert!(!policy.allows_open_access());
    assert!(policy.api_key_matches("test-key"));
}

#[test]
fn security_policy_enforces_global_rate_limit() {
    let mut config = config();
    config.security_global_rps = Some(1);
    let mut policy = SecurityPolicy::from_config(&config).unwrap();
    let mut saw_rate_limited = false;
    for _ in 0..20 {
        if status(policy.enforce_security(&request("/v1/runs", None, None), "req-1", 0)) == 429 {
            saw_rate_limited = true;
            break;
        }
    }
    assert!(saw_rate_limited);
}

#[test]
fn tenant_rate_limit_keys_on_authenticated_principal_not_tenant_header() {
    let mut config = config();
    config.security_require_api_key = true;
    config.security_api_keys = vec!["key-a".to_string(), "key-b".to_string()];
    config.security_tenant_rps = Some(1);
    let mut policy = SecurityPolicy::from_config(&config).unwrap();
    let first = request("/v1/runs", Some("key-a"), Some("tenant-a"));
    assert_eq!(status(policy.enforce_security(&first, "req-1", 0)), 200);
    let rotated_tenant = request("/v1/runs", Some("key-a"), Some("tenant-b"));
    assert_eq!(
        status(policy.enforce_security(&rotated_tenant, "req-2", 0)),
        429,
        "same API key must not bypass quota by rotating x-tenant-id"
    );
    let other_key = request("/v1/runs", Some("key-b"), Some("tenant-a"));
    assert_eq!(
        status(policy.enforce_security(&other_key, "req-3", 0)),
        200,
        "a different API key gets an independent quota bucket"
    );
}

#[test]
fn security_policy_requires_tenant_header_when_enabled() {
    let mut config = config();
    config.security_require_api_key = true;
    config.security_api_keys = vec!["test-key".to_string()];
    config.security_require_tenant_id = true;
    config.security_tenant_rps = Some(10);
    let mut policy = SecurityPolicy::from_config(&config).unwrap();
    let missing = request("/v1/runs", Some("test-key"), None);
    assert_eq!(status(policy.enforce_security(&missing, "req-1", 0)), 401);
    let present = request("/v1/runs", Some("test-key"), Some("tenant-a"));
    assert_eq!(status(policy.enforce_security(&present, "req-2", 0)), 200);
}

#[test]
fn security_policy_rejects_required_tenant_without_api_keys() {
    let mut config = config();
    config.security_require_tenant_id = true;
    let err = match SecurityPolicy::from_config(&config) {
        Ok(_) => panic!("required-tenant without required API keys should be rejected"),
        Err(err) => err,
    };
    assert!(
        err.contains("VIDARAX_REQUIRE_TENANT_ID requires VIDARAX_REQUIRE_API_KEY=true"),
        "unexpected error: {err}"
    );
}

#[test]
fn policies_without_keys_or_slots_are_refused() {
    let mut no_keys = config();
    no_keys.security_require_api_key = true;
    assert_eq!(SecurityPolicy::from_config(&no_keys).err().as_deref(), Some(NO_KEYS_PROBLEM));
    let mut no_slots = config();
    no_slots.security_tenant_slots = 0;
    no_slots.security_tenant_rps = Some(1);
    assert_eq!(SecurityPolicy::from_config(&no_slots).err().as_deref(), Some(NO_SLOTS_PROBLEM));
}

#[test]
fn metrics_endpoint_requires_api_key_when_enabled() {
    let mut config = config();
    config.security_api_keys = vec!["metrics-key".to_string()];
    config.security_metrics_require_api_key = true;
    let mut policy = SecurityPolicy::from_config(&config).unwrap();
    let missing = request("/v1/metrics", None, None);
    assert_eq!(status(policy.enforce_security(&missing, "req-1", 0)), 401);
    let present = request("/v1/metrics", Some("metrics-key"), None);
    assert_eq!(status(policy.enforce_security(&present, "req-2", 0)), 200);
}

#[test]
fn authenticated_metrics_endpoint_uses_principal_rate_limit() {
    let mut config = config();
    config.security_api_keys = vec!["metrics-key".to_string(), "metrics-key-b".to_string()];
    config.security_tenant_rps = Some(1);
    config.security_metrics_require_api_key = true;
    let mut policy = SecurityPolicy::from_config(&config).unwrap();
    let first = request("/v1/metrics", Some("metrics-key"), None);
    assert_eq!(status(policy.enforce_security(&first, "req-1", 0)), 200);
    assert_eq!(status(policy.enforce_security(&first, "req-2", 0)), 429);
    let other_key = request("/v1/metrics", Some("metrics-key-b"), None);
    assert_eq!(
        status(policy.enforce_security(&other_key, "req-3", 0)),
        200,
        "a different metrics API key gets an independent quota bucket"
    );
}

#[test]
fn cors_preflight_rejects_unlisted_origin() {
    let mut policy = policy_for(vec!["https://app.example.com".to_string()]);
    let facts = preflight("https://evil.example.com");
    assert_eq!(status(policy.enforce_security(&facts, "req-1", 0)), 403);
    assert!(header(&policy.finalize_response(Some("https://evil.example.com"), true), "access-control-allow-origin").is_none());
}

#[test]
fn cors_preflight_allows_listed_origin() {
    let mut policy = policy_for(vec!["https://app.example.com".to_string()]);
    let facts = preflight("https://app.example.com");
    assert_eq!(status(policy.enforce_security(&facts, "req-1", 0)), 204);
    let lines = policy.finalize_response(Some("https://app.example.com"), true);
    assert_eq!(header(&lines, "access-control-allow-origin"), Some("https://app.example.com"));
}

#[test]
fn preflight_without_a_readable_origin_is_refused() {
    let mut policy = policy_for(vec!["https://app.example.com".to_string()]);
    let mut facts = preflight("https://app.example.com");
    facts.origin = None;
    assert_eq!(status(policy.enforce_security(&facts, "req-1", 0)), 400);
}

#[test]
fn whip_offer_cors_exposes_location_and_run_id_headers() {
    let policy = policy_for(vec!["https://app.example.com".to_string()]);
    let lines = policy.finalize_response(Some("https://app.example.com"), false);
    let exposed = header(&lines, "access-control-expose-headers").unwrap_or("");
    assert!(exposed.split(',').any(|header| header.trim() == "location"));
    assert!(exposed.split(',').any(|header| header.trim() == "x-vidarax-run-id"));
}

#[test]
fn responses_include_security_headers() {
    let policy = SecurityPolicy::from_config_for_tests();
    let lines = policy.finalize_response(None, false);
    assert_eq!(header(&lines, "x-content-type-options"), Some("nosniff"));
    assert_eq!(header(&lines, "x-frame-options"), Some("DENY"));
    assert_eq!(header(&lines, "referrer-policy"), Some("no-referrer"));
    assert_eq!(header(&lines, "cache-control"), Some("no-store"));
}

#[test]
fn open_mode_uses_shared_public_principal_without_tenant_isolation() {
    let policy = SecurityPolicy::from_config_for_tests();
    let made = request("/v1/runs", Some("unvalidated-key"), Some("tenant-a"));
    let read = request("/v1/runs/x/state", Some("other-unvalidated-key"), Some("tenant-b"));
    assert_eq!(policy.principal_key(&made), "public");
    assert_eq!(policy.principal_key(&read), "public");
    assert_eq!(policy.principal_key(&request("/v1/runs", None, Some("tenant-b"))), "public");
}

#[test]
fn forged_tenant_id_cannot_cross_api_key_principals() {
    let policy = SecurityPolicy::from_test_policy(
        true,
        vec!["key-a".to_string(), "key-b".to_string()],
        false,
        false,
        vec![],
    );
    let a = policy.principal_key(&request("/v1/runs", Some("key-a"), Some("shared")));
    let b = policy.principal_key(&request("/v1/runs", Some("key-b"), Some("shared")));
    let a_other = policy.principal_key(&request("/v1/runs", Some("key-a"), Some("else")));
    assert_ne!(a, b);
    assert_eq!(a, a_other);
    assert_eq!(a, format!("api-key:{}", strong_hash_hex("key-a")));
}

#[test]
fn origins_are_normalized_once() {
    let origins = vec![
        " https://a.example ".to_string(),
        "https://a.example".to_string(),
        "".to_string(),
        "https://b.example".to_string(),
        "bad\norigin".to_string(),
    ];
    let listed = normalize_cors_origins(&origins);
    assert_eq!(listed, vec!["https://a.example".to_string(), "https://b.example".to_string(), "bad\norigin".to_string()]);
    let policy = policy_for(origins);
    assert_eq!(
        policy.cors_origin_header(Some("https://b.example")).map(|(origin, _)| origin).as_deref(),
        Some("https://b.example")
    );
    assert!(policy.cors_origin_header(Some("bad\norigin")).is_none());
    assert!(policy.cors_origin_header(None).is_none());
}

#[test]
fn refused_rates_are_answered_with_429() {
    assert_eq!(status(judge_rate("req-1", false)), 429);
    assert_eq!(status(judge_rate("req-1", true)), 200);
}
