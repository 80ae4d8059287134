use vidarax_api::config::{
    backend_entries_from_explicit_urls, build_webrtc_config, build_webrtc_vlm_config,
    load_backend_config, requested_ingest_roots, spacetime_target, validate_tenant_auth_config, DistillationConfig,
    EnvVar, Environment, GateConfig, RootLookup, ServerConfig, TransportMode,
};
use vidarax_api::ieee::Single;

fn number(v: f32) -> Single {
    Single { bits: v.to_bits() }
}

fn env(vars: &[(&str, &str)]) -> Environment {
    Environment {
        vars: vars
            .iter()
            .map(|(name, text)| EnvVar {
                name: name.to_string(),
                text: text.to_string(),
                single: text.parse::<f32>().ok().map(number),
            })
            .collect(),
    }
}

fn gate() -> GateConfig {
    GateConfig {
        keepalive_every_frames: 30,
        scene_cut_hamming_threshold: 12,
        luma_shift_threshold: number(0.2),
        flicker_threshold: number(0.3),
        ghosting_threshold: number(0.4),
        noise_variance_threshold: number(0.5),
    }
}

fn open_env(extra: &[(&str, &str)]) -> Environment {
    let mut vars = vec![("VIDARAX_REQUIRE_API_KEY", "false")];
    vars.extend_from_slice(extra);
    env(&vars)
}

fn configured(extra: &[(&str, &str)]) -> ServerConfig {
    ServerConfig::from_env(&open_env(extra), &vec![], gate()).expect("configuration")
}

fn test_config() -> ServerConfig {
    ServerConfig {
        bind_addr: "127.0.0.1:8080".to_string(),
        h3_bind_addr: "127.0.0.1:8443".to_string(),
        h3_tls_cert_path: "dev.crt".to_string(),
        h3_tls_key_path: "dev.key".to_string(),
        data_dir: "/tmp".to_string(),
        ingest_file_roots: vec![],
        inference_vllm_base_url: None,
        inference_sglang_base_url: None,
        security_require_api_key: false,
        security_api_keys: vec![],
        security_require_tenant_id: false,
        security_global_rps: None,
        security_tenant_rps: None,
        security_tenant_slots: 128,
        security_metrics_require_api_key: false,
        cors_allowed_origins: vec![],
        stream_ttl_secs: 3600,
        active_stream_limit: 5,
        transport: TransportMode::H1H2,
        decode_backend: "cpu-ffmpeg".to_string(),
        webrtc_stun_servers: vec!["stun:stun.l.google.com:19302".to_string()],
        webrtc_turn_url: None,
        webrtc_turn_username: None,
        webrtc_turn_credential: None,
        spacetimedb_url: None,
        spacetimedb_module: None,
        webrtc_max_output_tokens_per_second: 128,
        webrtc_decode_workers: 1,
        webrtc_analysis_workers: 1,
        webrtc_vlm_workers: 1,
        webrtc_first_pass_model: "Qwen/Qwen3-VL-8B-Instruct".to_string(),
        webrtc_second_pass_model: None,
        webrtc_second_pass_threshold: number(0.7),
        webrtc_second_pass_max_tokens: 256,
        gate_config: gate(),
        distillation: DistillationConfig {
            enabled: false,
            embedding_server_url: None,
            teacher_model: "Qwen/Qwen3-VL-8B-Instruct".to_string(),
            max_pairs_per_tenant: 10_000,
            collection_rate: number(0.1),
            distance_threshold: number(0.2),
            knn_k: 7,
        },
    }
}

#[test]
fn transport_mode_accepts_all_h1h2_aliases() {
    for alias in &["h1", "h2", "h1h2", "http", "http2"] {
        assert_eq!(
            TransportMode::parse(Some(alias)),
            Ok(TransportMode::H1H2),
            "alias '{alias}' should map to H1H2"
        );
    }
}

#[test]
fn transport_mode_accepts_h3_aliases() {
    for alias in &["h3", "http3"] {
        assert_eq!(
            TransportMode::parse(Some(alias)),
            Ok(TransportMode::H3Experimental),
            "alias '{alias}' should map to H3Experimental"
        );
    }
}

#[test]
fn transport_mode_defaults_to_h1h2_when_none() {
    assert_eq!(TransportMode::parse(None), Ok(TransportMode::H1H2));
}

#[test]
fn transport_mode_rejects_unknown_value() {
    let result = TransportMode::parse(Some("grpc"));
    assert!(result.is_err(), "unknown transport mode should be rejected");
    let msg = result.unwrap_err();
    assert!(
        msg.contains("grpc"),
        "error message should mention the unknown value: {msg}"
    );
    assert_eq!(
        TransportMode::parse(Some("GRPC")).unwrap_err(),
        "unsupported transport mode 'grpc', expected one of: h1h2, h3"
    );
}

#[test]
fn parses_transport_mode() {
    assert_eq!(TransportMode::parse(None).unwrap(), TransportMode::H1H2);
    assert_eq!(
        TransportMode::parse(Some("h3")).unwrap(),
        TransportMode::H3Experimental
    );
    assert!(TransportMode::parse(Some("bad-mode")).is_err());
}

#[test]
fn transport_mode_labels() {
    assert_eq!(TransportMode::H1H2.label(), "h1h2");
    assert_eq!(TransportMode::H3Experimental.label(), "h3-experimental");
    assert_eq!(
        TransportMode::parse(Some("HTTP3")),
        Ok(TransportMode::H3Experimental)
    );
}

#[test]
fn server_config_preserves_custom_decode_backend_name() {
    let cfg = configured(&[("VIDARAX_DECODE_BACKEND", "test-custom-backend")]);
    assert_eq!(cfg.decode_backend, "test-custom-backend");
}

#[test]
fn server_config_clamps_webrtc_worker_counts() {
    let cfg = configured(&[
        ("VIDARAX_WEBRTC_DECODE_WORKERS", "999"),
        ("VIDARAX_WEBRTC_ANALYSIS_WORKERS", "999"),
        ("VIDARAX_WEBRTC_VLM_WORKERS", "999"),
    ]);
    assert_eq!(cfg.webrtc_decode_workers, 1);
    assert_eq!(cfg.webrtc_analysis_workers, 1);
    assert_eq!(cfg.webrtc_vlm_workers, 1);
}

#[test]
fn server_config_default_ingest_roots_are_empty() {
    let cfg = configured(&[]);
    assert!(
        cfg.ingest_file_roots.is_empty(),
        "shared ingest roots must be operator-configured; temp_dir is not a default root"
    );
    assert!(requested_ingest_roots(&open_env(&[])).is_empty());
}

#[test]
fn server_config_gate_defaults_match_core_defaults_when_unset() {
    assert_eq!(configured(&[]).gate_config, gate());
}

#[test]
fn server_config_gate_thresholds_can_be_overridden() {
    let cfg = configured(&[("VIDARAX_GATE_SCENE_CUT_HAMMING_THRESHOLD", "7")]);
    assert_eq!(cfg.gate_config.scene_cut_hamming_threshold, 7);
    assert_eq!(
        cfg.gate_config.keepalive_every_frames,
        gate().keepalive_every_frames
    );
}

#[test]
fn server_config_reads_spacetimedb_env() {
    let cfg = configured(&[]);
    assert!(cfg.spacetimedb_url.is_none());
    assert!(cfg.spacetimedb_module.is_none());

    let cfg = configured(&[("VIDARAX_SPACETIMEDB_URL", "http://127.0.0.1:3000")]);
    assert_eq!(
        cfg.spacetimedb_url.as_deref(),
        Some("http://127.0.0.1:3000")
    );
    assert!(cfg.spacetimedb_module.is_none());

    let cfg = configured(&[
        ("VIDARAX_SPACETIMEDB_URL", "http://127.0.0.1:3000"),
        ("VIDARAX_SPACETIMEDB_MODULE", "custom_module"),
    ]);
    assert_eq!(
        cfg.spacetimedb_url.as_deref(),
        Some("http://127.0.0.1:3000")
    );
    assert_eq!(cfg.spacetimedb_module.as_deref(), Some("custom_module"));
}

#[test]
fn server_config_rejects_required_tenant_without_required_api_key() {
    let err = validate_tenant_auth_config(false, true)
        .expect_err("required tenant IDs without required API-key auth should be rejected");

    assert!(
        err.contains("VIDARAX_REQUIRE_TENANT_ID requires VIDARAX_REQUIRE_API_KEY=true"),
        "unexpected error: {err}"
    );
    assert!(validate_tenant_auth_config(true, true).is_ok());
    assert!(validate_tenant_auth_config(false, false).is_ok());
}

#[test]
fn server_config_explicit_ingest_roots_are_canonicalized() {
    let e = open_env(&[("VIDARAX_INGEST_FILE_ROOTS", " /srv/media , ,/mnt/clips")]);
    assert_eq!(
        requested_ingest_roots(&e),
        vec!["/srv/media".to_string(), "/mnt/clips".to_string()]
    );
    let roots = vec![
        RootLookup::Found("/data/media".to_string()),
        RootLookup::Found("/mnt/clips".to_string()),
    ];
    let cfg = ServerConfig::from_env(&e, &roots, gate()).expect("explicit ingest root should parse");
    assert_eq!(
        cfg.ingest_file_roots,
        vec!["/data/media".to_string(), "/mnt/clips".to_string()]
    );
}

#[test]
fn missing_ingest_root_is_named() {
    let e = open_env(&[("VIDARAX_INGEST_FILE_ROOTS", "/srv/media,/nowhere")]);
    let roots = vec![
        RootLookup::Found("/srv/media".to_string()),
        RootLookup::Missing("No such file or directory".to_string()),
    ];
    assert_eq!(
        ServerConfig::from_env(&e, &roots, gate()).unwrap_err(),
        "VIDARAX_INGEST_FILE_ROOTS contains invalid root '/nowhere': No such file or directory"
    );
}

#[test]
fn server_config_turn_fields_roundtrip() {
    let cfg = ServerConfig {
        webrtc_stun_servers: vec!["stun:custom.example.com:3478".to_string()],
        webrtc_turn_url: Some("turn:relay.example.com:3478".to_string()),
        webrtc_turn_username: Some("alice".to_string()),
        webrtc_turn_credential: Some("secret".to_string()),
        webrtc_max_output_tokens_per_second: 64,
        webrtc_decode_workers: 2,
        webrtc_analysis_workers: 1,
        webrtc_vlm_workers: 2,
        ..test_config()
    };

    assert_eq!(
        cfg.webrtc_turn_url.as_deref(),
        Some("turn:relay.example.com:3478")
    );
    assert_eq!(cfg.webrtc_turn_username.as_deref(), Some("alice"));
    assert_eq!(cfg.webrtc_turn_credential.as_deref(), Some("secret"));
    assert_eq!(cfg.webrtc_max_output_tokens_per_second, 64);
    assert_eq!(cfg.webrtc_decode_workers, 2);
    assert_eq!(cfg.webrtc_analysis_workers, 1);
    assert_eq!(cfg.webrtc_vlm_workers, 2);
    assert_eq!(
        cfg.webrtc_stun_servers,
        vec!["stun:custom.example.com:3478"]
    );
    let webrtc = build_webrtc_config(&cfg);
    assert_eq!(webrtc.turn_servers.len(), 1);
    assert_eq!(webrtc.turn_servers[0].url, "turn:relay.example.com:3478");
    assert_eq!(webrtc.turn_servers[0].username, "alice");
    assert_eq!(webrtc.turn_servers[0].credential, "secret");
}

#[test]
fn server_config_turn_absent_fields_are_none() {
    let cfg = test_config();
    assert!(cfg.webrtc_turn_url.is_none(), "turn_url should be None");
    assert!(
        cfg.webrtc_turn_username.is_none(),
        "turn_username should be None"
    );
    assert!(
        cfg.webrtc_turn_credential.is_none(),
        "turn_credential should be None"
    );
    assert!(build_webrtc_config(&cfg).turn_servers.is_empty());
}

#[test]
fn server_config_vlm_tiering_defaults_to_local_only() {
    let cfg = configured(&[]);
    assert_eq!(cfg.webrtc_first_pass_model, "Qwen/Qwen3-VL-8B-Instruct");
    assert!(
        cfg.webrtc_second_pass_model.is_none(),
        "unset second-pass model must default to local-only (no escalation)"
    );
    assert_eq!(cfg.webrtc_second_pass_threshold, number(0.7));
    assert_eq!(cfg.webrtc_second_pass_max_tokens, 256);

    let tiered = build_webrtc_vlm_config(&cfg);
    assert!(
        !tiered.is_tiered(),
        "default TieredVlmConfig must stay local-only so live streams never escalate unasked"
    );
}

#[test]
fn server_config_vlm_tiering_blank_second_pass_model_is_local_only() {
    let cfg = configured(&[("VIDARAX_WEBRTC_SECOND_PASS_MODEL", "   ")]);
    assert!(
        cfg.webrtc_second_pass_model.is_none(),
        "an empty/whitespace-only value must be treated the same as unset"
    );
}

#[test]
fn server_config_vlm_tiering_differing_second_pass_model_enables_tiering() {
    let cfg = configured(&[("VIDARAX_WEBRTC_SECOND_PASS_MODEL", "gemini-3.1-flash-lite")]);
    assert_eq!(
        cfg.webrtc_second_pass_model.as_deref(),
        Some("gemini-3.1-flash-lite")
    );
    assert_ne!(
        cfg.webrtc_second_pass_model.as_deref(),
        Some(cfg.webrtc_first_pass_model.as_str())
    );

    let tiered = build_webrtc_vlm_config(&cfg);
    assert!(tiered.is_tiered(), "differing models must enable tiering");
    assert_eq!(tiered.second_pass.unwrap().model, "gemini-3.1-flash-lite");
}

#[test]
fn server_config_vlm_tiering_second_pass_equal_to_first_stays_local_only() {
    let cfg = configured(&[("VIDARAX_WEBRTC_SECOND_PASS_MODEL", "Qwen/Qwen3-VL-8B-Instruct")]);
    assert_eq!(
        cfg.webrtc_second_pass_model.as_deref(),
        Some(cfg.webrtc_first_pass_model.as_str())
    );
    let tiered = build_webrtc_vlm_config(&cfg);
    assert!(
        !tiered.is_tiered(),
        "a second-pass model equal to the first-pass model must stay local-only"
    );
}

#[test]
fn server_config_vlm_tiering_threshold_is_clamped_to_unit_range() {
    let cfg = configured(&[("VIDARAX_WEBRTC_SECOND_PASS_THRESHOLD", "5.0")]);
    assert_eq!(cfg.webrtc_second_pass_threshold, number(1.0));
}

#[test]
fn server_config_vlm_tiering_threshold_out_of_range_clamps_to_one() {
    let cfg = configured(&[("VIDARAX_WEBRTC_SECOND_PASS_THRESHOLD", "1.5")]);
    assert_eq!(cfg.webrtc_second_pass_threshold, number(1.0));
}

#[test]
fn server_config_vlm_tiering_threshold_in_range_is_preserved() {
    let cfg = configured(&[("VIDARAX_WEBRTC_SECOND_PASS_THRESHOLD", "0.5")]);
    assert_eq!(cfg.webrtc_second_pass_threshold, number(0.5));
}

#[test]
fn server_config_vlm_tiering_threshold_nan_falls_back_to_default() {
    let cfg = configured(&[("VIDARAX_WEBRTC_SECOND_PASS_THRESHOLD", "NaN")]);
    assert_eq!(
        cfg.webrtc_second_pass_threshold,
        number(0.7),
        "a NaN threshold must fall back to the default instead of silently disabling escalation"
    );
}

#[test]
fn server_config_vlm_tiering_threshold_infinite_falls_back_to_default() {
    let cfg = configured(&[("VIDARAX_WEBRTC_SECOND_PASS_THRESHOLD", "inf")]);
    assert_eq!(
        cfg.webrtc_second_pass_threshold,
        number(0.7),
        "an infinite threshold must fall back to the default before clamping"
    );
}

#[test]
fn build_webrtc_vlm_config_reads_server_config_fields_not_env() {
    let mut cfg = test_config();
    cfg.webrtc_first_pass_model = "local-model".to_string();
    cfg.webrtc_second_pass_model = Some("escalation-model".to_string());
    cfg.webrtc_second_pass_threshold = number(0.42);
    cfg.webrtc_second_pass_max_tokens = 512;

    let tiered = build_webrtc_vlm_config(&cfg);

    assert!(tiered.is_tiered());
    assert_eq!(tiered.first_pass_model, "local-model");
    let second = tiered.second_pass.unwrap();
    assert_eq!(second.model, "escalation-model");
    assert_eq!(second.threshold, number(0.42));
    assert_eq!(second.max_tokens, 512);
}

#[test]
fn build_webrtc_vlm_config_sanitizes_non_finite_programmatic_threshold() {
    let mut cfg = test_config();
    cfg.webrtc_first_pass_model = "local-model".to_string();
    cfg.webrtc_second_pass_model = Some("escalation-model".to_string());
    cfg.webrtc_second_pass_max_tokens = 256;

    for bad in [f32::NAN, f32::INFINITY, f32::NEG_INFINITY] {
        cfg.webrtc_second_pass_threshold = number(bad);
        let tiered = build_webrtc_vlm_config(&cfg);
        assert!(tiered.is_tiered());
        assert_eq!(
            tiered.second_pass.unwrap().threshold,
            number(0.7),
            "a non-finite programmatic threshold must fall back to the default"
        );
    }

    cfg.webrtc_second_pass_threshold = number(5.0);
    assert_eq!(
        build_webrtc_vlm_config(&cfg).second_pass.unwrap().threshold,
        number(1.0)
    );
    cfg.webrtc_second_pass_threshold = number(-1.0);
    assert_eq!(
        build_webrtc_vlm_config(&cfg).second_pass.unwrap().threshold,
        number(0.0)
    );
}

#[test]
fn build_webrtc_config_clamps_programmatic_analysis_workers() {
    let mut config = test_config();
    config.webrtc_analysis_workers = 8;

    let webrtc = build_webrtc_config(&config);

    assert_eq!(webrtc.analysis_workers, 1);
}

#[test]
fn build_webrtc_config_carries_resolved_gate_config() {
    let mut config = test_config();
    config.gate_config.scene_cut_hamming_threshold = 7;

    let webrtc = build_webrtc_config(&config);

    assert_eq!(webrtc.gate_config.scene_cut_hamming_threshold, 7);
}

#[test]
fn build_webrtc_config_carries_resolved_tiering_config() {
    let mut config = test_config();
    config.webrtc_first_pass_model = "local-model".to_string();
    config.webrtc_second_pass_model = Some("escalation-model".to_string());
    config.webrtc_second_pass_threshold = number(0.42);
    config.webrtc_second_pass_max_tokens = 512;

    let webrtc = build_webrtc_config(&config);

    assert!(
        webrtc.vlm_tiering.is_tiered(),
        "a ServerConfig with a distinct second-pass model must resolve to tiered routing"
    );
    assert_eq!(webrtc.vlm_tiering.first_pass_model, "local-model");
    let second = webrtc.vlm_tiering.second_pass.unwrap();
    assert_eq!(second.model, "escalation-model");
    assert_eq!(second.threshold, number(0.42));
    assert_eq!(second.max_tokens, 512);
}

#[test]
fn attach_spacetime_client_respects_env_gated_config() {
    let mut config = test_config();
    assert!(spacetime_target(&config).is_none());

    config.spacetimedb_url = Some("http://127.0.0.1:3000".to_string());
    assert_eq!(
        spacetime_target(&config),
        Some(("http://127.0.0.1:3000".to_string(), "vidarax".to_string()))
    );
}

#[test]
fn explicit_inference_urls_build_provider_backend_entries() {
    let config = ServerConfig {
        inference_vllm_base_url: Some("http://127.0.0.1:8081/v1".to_string()),
        inference_sglang_base_url: Some("http://127.0.0.1:8082/v1".to_string()),
        ..test_config()
    };

    let entries = backend_entries_from_explicit_urls(&config).unwrap();

    assert_eq!(entries.len(), 2);
    assert_eq!(entries[0].name, "vllm");
    assert_eq!(entries[0].backend_type, "openai_compat");
    assert_eq!(
        entries[0].base_url.as_deref(),
        Some("http://127.0.0.1:8081/v1")
    );
    assert_eq!(entries[0].priority, 1);
    assert_eq!(entries[1].name, "sglang");
    assert_eq!(entries[1].backend_type, "openai_compat");
    assert_eq!(
        entries[1].base_url.as_deref(),
        Some("http://127.0.0.1:8082/v1")
    );
    assert_eq!(entries[1].priority, 2);
    assert!(backend_entries_from_explicit_urls(&test_config()).is_none());
}

#[test]
fn server_config_problems_are_named() {
    let cases: Vec<(&str, &str, &str)> = vec![
        (
            "VIDARAX_REQUIRE_TENANT_ID",
            "maybe",
            "VIDARAX_REQUIRE_TENANT_ID must be one of: 1,true,yes,on,0,false,no,off",
        ),
        (
            "VIDARAX_RATE_LIMIT_GLOBAL_RPS",
            "-3",
            "VIDARAX_RATE_LIMIT_GLOBAL_RPS must be an unsigned integer",
        ),
        (
            "VIDARAX_STREAM_TTL_SECS",
            "59",
            "VIDARAX_STREAM_TTL_SECS must be in [60, 86400]",
        ),
        (
            "VIDARAX_GATE_FLICKER_THRESHOLD",
            "much",
            "VIDARAX_GATE_FLICKER_THRESHOLD must be a floating-point number",
        ),
        (
            "VIDARAX_GATE_SCENE_CUT_HAMMING_THRESHOLD",
            "4294967296",
            "VIDARAX_GATE_SCENE_CUT_HAMMING_THRESHOLD must be an unsigned integer",
        ),
    ];
    for (name, text, problem) in cases {
        assert_eq!(
            ServerConfig::from_env(&open_env(&[(name, text)]), &vec![], gate()).unwrap_err(),
            problem
        );
    }
    assert_eq!(
        ServerConfig::from_env(
            &env(&[("VIDARAX_CORS_ALLOWED_ORIGINS", "https://a.example, *")]),
            &vec![],
            gate()
        )
        .unwrap_err(),
        "VIDARAX_CORS_ALLOWED_ORIGINS must not contain '*' when VIDARAX_REQUIRE_API_KEY is enabled"
    );
}

#[test]
fn server_config_defaults() {
    let cfg = ServerConfig::from_env(&env(&[]), &vec![], gate()).unwrap();
    assert!(cfg.security_require_api_key);
    assert!(cfg.security_metrics_require_api_key);
    assert_eq!(cfg.bind_addr, "127.0.0.1:8080");
    assert_eq!(cfg.stream_ttl_secs, 3600);
    assert_eq!(cfg.active_stream_limit, 5);
    assert_eq!(cfg.security_tenant_slots, 2048);
    assert_eq!(cfg.webrtc_stun_servers, vec!["stun:stun.l.google.com:19302"]);
    assert_eq!(cfg.distillation.max_pairs_per_tenant, 10_000);
    assert_eq!(cfg.distillation.collection_rate, number(0.1));
    assert_eq!(cfg.distillation.distance_threshold, number(0.2));
    let cfg = configured(&[
        ("VIDARAX_ACTIVE_STREAM_LIMIT", "100000"),
        ("VIDARAX_DISTILL_COLLECTION_RATE", "2.5"),
        ("VIDARAX_WEBRTC_MAX_OUTPUT_TOKENS_PER_SECOND", "4294967298"),
    ]);
    assert_eq!(cfg.active_stream_limit, 1024);
    assert_eq!(cfg.distillation.collection_rate, number(1.0));
    assert_eq!(cfg.webrtc_max_output_tokens_per_second, 2);
}

#[test]
fn backends_come_from_the_file_or_else_from_the_environment() {
    let vars = env(&[("VIDARAX_SGLANG_BASE_URL", "http://127.0.0.1:8082/v1")]);
    let entries = load_backend_config(None, &vars).unwrap();
    assert_eq!(entries.len(), 1);
    assert_eq!(entries[0].name, "sglang");
    assert_eq!(entries[0].openai_kind.as_deref(), Some("sglang"));
    assert_eq!(entries[0].priority, 2);
    assert!(load_backend_config(None, &env(&[])).unwrap().is_empty());
    assert!(load_backend_config(Some(Ok(Vec::new())), &vars).unwrap().is_empty());
    assert_eq!(load_backend_config(Some(Err("no".to_string())), &vars).err().as_deref(), Some("no"));
}
