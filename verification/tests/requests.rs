use vidarax_api::analyze::{
    analyze_context, analyze_input, analyze_run, check_analyze, stream_id_for, trace_id_for,
    AnalyzeParams,
};
use vidarax_api::auth::strong_hash_hex;
use vidarax_api::catalog::{
    feedback_reply, feedback_rows_to_json_for_owned_runs, health, list_feedback, list_models,
    submit_feedback, FeedbackRow, KnownModel,
};
use vidarax_api::files::{
    allowed_served_file_extension, check_served_name, enforce_file_source_visibility,
    file_serve_roots, filename_is_visible_to_principal, found_file,
    ingest_file_roots_with_upload_root, is_inside, looks_like_playlist, media_type_of,
    path_asked_for, requested_file_path_for_visibility, root_of, sanitized_name, serve_file, upload_file, upload_owner_prefix_from_principal, upload_reply,
    upload_without_file, validate_uploaded_media_container, FoundFile, ProbeOutcome, ServeAnswer,
    SourceLookup, PLAYLIST_PROBLEM,
};
use vidarax_api::chunk_result::ChunkSemanticResult;
use vidarax_api::chunks::MediaResolution;
use vidarax_api::frame_rows::{
    compose_frame_metadata, compose_rows, frame_labels, FrameMetadata, GateEventType, LabeledFrame, MappedLabel,
    RowContext,
};
use vidarax_api::ids::{random_run_id, validate_run_id};
use vidarax_api::ieee::{Double, Single};
use vidarax_api::infer_batch::{check_infer, infer_batch};
use vidarax_api::inference::{
    check_batch, finish_infer, infer, infer_execution_error_to_response,
    map_provider_execution_error, no_provider_error, not_logged_error, parse_provider,
    validate_infer_request, BatchItem, BatchLedger,
    InferFailure, InferOutcome, ProviderAnswer,
};
use vidarax_api::inference_metrics::{InferenceMetrics, ProviderKind};
use vidarax_api::ingest::{check_ingest, check_source, effective_sample_fps, ingest_run, DecodedSource};
use vidarax_api::json::{parse_json, Json, JsonNumber};
use vidarax_api::models::{
    AnalyzeFrameInput, AnalyzeFramesRequest, AnalyzeMarker, FeedbackRequest, InferRequest,
    RealtimeReasonRequest,
    SamplingPolicy, SearchRequest, TokenUsage,
};
use vidarax_api::queries::{
    get_events, get_interactions, get_markers, query, EventsQueryParams, InteractionsQueryParams,
    MarkerEvent, MarkerQueryParams,
};
use vidarax_api::reason::{
    assemble_realtime_reason_response, check_reason, reason_realtime_run, reason_rows,
    DecodeOutcome, ReasonedChunk,
};
use vidarax_api::run_list::{distinct_run_ids, list_runs, KnownRun};
use vidarax_api::runs::{
    check_create_run, create_run, delete_run, extract_run_metadata, get_run, get_state,
    keepalive_run, label_map_key_from_principal, owned_run_ids_from_events, settle, stop_run,
    RunIds, RunSnapshot, Written,
};
use vidarax_api::response::Reply;
use vidarax_api::search::{hit_in_payload, search};
use vidarax_api::security::{RequestFacts, SecurityPolicy};
use vidarax_api::semantic::{segment_inputs, MarkerInput, RatedSegment};
use vidarax_api::signals::{
    adaptive_sample_fps, estimate_sample_fps, last_coordinates, FrameSignal, SampleRate,
    IMAGE_COORDINATE_SCHEMA,
};
use vidarax_api::timeline::TimelineEvent;

const CLIP_RESOLUTION: MediaResolution = MediaResolution { code: 1 };
const RUN: &str = "run-0000000000000001";
const OTHER: &str = "run-00000000000000bb";

fn single(x: f32) -> Single {
    Single { bits: x.to_bits() }
}

fn double(x: f64) -> Double {
    Double { bits: x.to_bits() }
}

fn snapshot(principal: &str, deleted: bool, terminal: bool) -> Option<RunSnapshot> {
    Some(RunSnapshot {
        principal_key: principal.to_string(),
        deleted,
        terminal,
        state_name: "running".to_string(),
        state_label: "running".to_string(),
    })
}

fn mine() -> Option<RunSnapshot> {
    snapshot("public", false, false)
}

fn event(seq: u64, run_id: &str, kind: &str, payload: &str) -> TimelineEvent {
    TimelineEvent {
        seq,
        run_id: run_id.to_string(),
        stream_id: "stream-0".to_string(),
        pts_ms: seq * 1_000,
        kind: kind.to_string(),
        payload: payload.to_string(),
    }
}

/// The code of an error, its message, and the fields that it tells of.
fn error_in(reply: &Reply) -> (String, String, Vec<(String, String)>) {
    let error = reply.body.get("error").expect("an error");
    let details = error
        .items_at("details")
        .unwrap()
        .iter()
        .map(|d| (d.text_at("field").unwrap().to_string(), d.text_at("message").unwrap().to_string()))
        .collect();
    (
        error.text_at("code").unwrap().to_string(),
        error.text_at("message").unwrap().to_string(),
        details,
    )
}

fn field_of(reply: &Reply) -> String {
    error_in(reply).2[0].0.clone()
}

fn in_state(label: &str) -> Option<RunSnapshot> {
    let mut run = mine().unwrap();
    run.state_label = label.to_string();
    Some(run)
}

fn infer_request(schema: &str) -> InferRequest {
    InferRequest {
        run_id: None,
        model: "Qwen/Qwen3-VL-2B-Instruct".to_string(),
        prompt: "return structured data".to_string(),
        max_tokens: None,
        temperature: None,
        timeout_ms: None,
        allow_fallback: None,
        primary_provider: Some("vllm".to_string()),
        output_schema: Some(schema.to_string()),
    }
}

fn prepared(schema: &str, context: &str) -> Json {
    let request = infer_request(schema);
    let model = Ok(request.model.clone());
    let prepared = validate_infer_request("req-1", context, &request, &model, &None, "public")
        .ok()
        .expect("a request that can be sent");
    parse_json(prepared.request.guided_json.as_deref().unwrap()).unwrap()
}

fn kind_of(schema: &Json, field: &str) -> Option<String> {
    let property = schema.get("properties")?.get(field)?;
    property.text_at("type").map(|t| t.to_string())
}

#[test]
fn infer_validation_maps_output_schema_to_guided_json() {
    let schema = prepared(
        r#"{"type":"object","properties":{"count":{"type":"number"}},"required":["count"]}"#,
        "invalid infer payload",
    );
    assert_eq!(kind_of(&schema, "count").as_deref(), Some("number"));
}

#[test]
fn infer_batch_validation_maps_output_schema_to_guided_json() {
    let schema = prepared(
        r#"{"type":"object","properties":{"ok":{"type":"boolean"}},"required":["ok"]}"#,
        "invalid infer-batch payload",
    );
    assert_eq!(kind_of(&schema, "ok").as_deref(), Some("boolean"));
}

fn feedback_row(id: u64, run_id: &str, session: &str, rating: u32, feedback: &str) -> FeedbackRow {
    FeedbackRow {
        id,
        agent_id: "0xagent".to_string(),
        run_id: run_id.to_string(),
        session_id: session.to_string(),
        rating,
        category: "quality".to_string(),
        feedback: feedback.to_string(),
        timestamp_micros: id as i64,
    }
}

#[test]
fn feedback_list_filters_rows_to_owned_runs() {
    let rows = vec![
        feedback_row(1, "run-00000000000000aa", "sess-a", 8, "owned"),
        feedback_row(2, "run-00000000000000bb", "sess-b", 2, "other"),
    ];
    let mut owned = RunIds::new();
    owned.insert("run-00000000000000aa");

    let filtered = feedback_rows_to_json_for_owned_runs(&rows, &owned);

    assert_eq!(filtered.len(), 1);
    assert_eq!(filtered[0].text_at("run_id"), Some("run-00000000000000aa"));
    assert_eq!(filtered[0].text_at("feedback"), Some("owned"));
}

#[test]
fn visible_owned_run_set_excludes_deleted_runs() {
    let principal = "public";
    let live_run = "run-00000000000000aa";
    let deleted_run = "run-00000000000000bb";
    let events = vec![
        event(1, live_run, "run_created", r#"{"principal_key":"public"}"#),
        event(2, deleted_run, "run_created", r#"{"principal_key":"public"}"#),
        event(3, deleted_run, "run_deleted", "{}"),
    ];
    let visible = owned_run_ids_from_events(&events, principal);
    assert!(visible.contains(live_run));
    assert!(
        !visible.contains(deleted_run),
        "deleted runs must not remain visible to search or feedback listing"
    );
    let rows = vec![
        feedback_row(1, live_run, "sess-a", 8, "seen"),
        feedback_row(2, deleted_run, "sess-b", 2, "gone"),
    ];
    let reply = list_feedback("req-1", principal, &events, &Some(rows));
    assert_eq!(reply.status, 200);
    assert_eq!(reply.body.items_at("feedback").map(|f| f.len()), Some(1));
    assert_eq!(list_feedback("req-1", principal, &events, &None).status, 500);
}

#[test]
fn health_endpoint_works() {
    let reply = health();
    assert_eq!(reply.status, 200);
    assert_eq!(reply.body.text_at("status"), Some("ok"));
}

#[test]
fn run_creation_returns_id() {
    let new = check_create_run("req-1", Ok("balanced".to_string()), Ok(None)).ok().expect("a run");
    let drawn = random_run_id().expect("random bytes");
    let plan = create_run(new, "public", &None, true, 5, &drawn, "req-1");
    assert_eq!(plan.reply.status, 200);
    let run_id = plan.reply.body.text_at("run_id").unwrap();
    assert_eq!(run_id, drawn);
    assert!(run_id.starts_with("run-"));
    assert_eq!(run_id.len(), 36);
    assert!(validate_run_id(run_id));
    assert_eq!(plan.appends.len(), 1);
    assert_eq!(plan.appends[0].kind, "run_created");
    assert_eq!(plan.appends[0].payload.text_at("principal_key"), Some("public"));
    assert_eq!(settle(plan.reply, Written::Failed, "req-1").status, 500);
}

#[test]
fn rejects_invalid_mode_in_run_creation() {
    let problem = "unknown mode: turbo";
    let refused = check_create_run("req-1", Err(problem.to_string()), Ok(None)).err().unwrap();
    assert_eq!(refused.status, 422);
    let (code, _, details) = error_in(&refused);
    assert_eq!(code, "validation_error");
    assert_eq!(details, vec![("mode".to_string(), problem.to_string())]);
}

#[test]
fn rejects_invalid_model_in_run_creation() {
    let problem = "unknown model: bad/model";
    let refused = check_create_run("req-1", Ok("balanced".to_string()), Err(problem.to_string()))
        .err()
        .unwrap();
    assert_eq!(refused.status, 422);
    assert_eq!(error_in(&refused).2, vec![("model".to_string(), problem.to_string())]);
}

#[test]
fn active_stream_limit_is_enforced_per_principal() {
    let new = check_create_run("req-1", Ok("balanced".to_string()), Ok(None)).ok().expect("a run");
    let plan = create_run(new, "public", &None, false, 5, RUN, "req-1");
    assert_eq!(plan.reply.status, 409);
    assert!(plan.appends.is_empty());
}

#[test]
fn run_scoped_endpoint_enforces_principal_ownership() {
    assert_eq!(get_state("req-1", RUN, &mine(), "public").status, 200);
    assert_eq!(get_state("req-1", RUN, &mine(), "api-key:b").status, 404);
    assert_eq!(get_state("req-1", RUN, &None, "public").status, 404);
    assert_eq!(get_state("req-1", "bad", &mine(), "public").status, 422);
}

#[test]
fn stop_transitions_state_to_cancelled() {
    let plan = stop_run("req-1", RUN, &mine(), "public");
    assert_eq!(plan.reply.status, 200);
    assert_eq!(plan.appends.len(), 1);
    assert_eq!(plan.appends[0].kind, "stop_requested");
    assert_eq!(plan.reply.body.text_at("status"), Some("cancelled"));
    let state = get_state("req-1", RUN, &in_state("cancelled"), "public");
    assert_eq!((state.status, state.body.text_at("state")), (200, Some("cancelled")));
    assert!(stop_run("req-1", RUN, &mine(), "someone").appends.is_empty());
    assert_eq!(stop_run("req-1", RUN, &snapshot("public", false, true), "public").reply.status, 409);
}

#[test]
fn keepalive_updates_run_and_state() {
    let plan = keepalive_run("req-1", RUN, &mine(), "public");
    assert_eq!(plan.reply.status, 200);
    assert_eq!(plan.appends[0].kind, "keepalive_refreshed");
    assert_eq!(plan.reply.body.text_at("state"), Some("processing"));
    let state = get_state("req-1", RUN, &in_state("processing"), "public");
    assert_eq!((state.status, state.body.text_at("state")), (200, Some("processing")));
    assert_eq!(keepalive_run("req-1", RUN, &snapshot("public", false, true), "public").reply.status, 409);
}

#[test]
fn deleted_run_is_not_addressable_and_releases_active_slot() {
    let gone = snapshot("public", true, true);
    assert_eq!(get_state("req-1", RUN, &gone, "public").status, 404);
    assert_eq!(stop_run("req-1", RUN, &gone, "public").reply.status, 404);
    assert_eq!(delete_run("req-1", RUN, &gone, "public").reply.status, 404);
    let ingest = parse_json(r#"{"source_uri":"/tmp/not-present.mp4"}"#).unwrap();
    assert_eq!(check_ingest("req-1", RUN, &gone, "public", &ingest).err().map(|r| r.status), Some(404));
    let analyze = analyze_request(None, None, 33, 2);
    let refused = check_analyze(
        "req-1",
        RUN,
        &gone,
        "public",
        &analyze,
        &Ok("balanced".to_string()),
        &Ok(analyze.model.clone()),
    );
    assert_eq!(refused.err().map(|r| r.status), Some(404));
    let feedback = FeedbackRequest { rating: 5, category: "quality".to_string(), feedback: None };
    let refused = submit_feedback("req-1", RUN, &feedback, &gone, "public", true);
    assert_eq!(refused.err().map(|r| r.status), Some(404));
    let asked = parse_json(&format!(r#"{{"run_id":"{RUN}"}}"#)).unwrap();
    assert_eq!(query("req-1", &asked, &gone, "public", &vec![]).status, 404);
    let plan = delete_run("req-1", RUN, &mine(), "public");
    assert_eq!(plan.reply.status, 200);
    assert_eq!(plan.appends.last().map(|a| a.kind), Some("run_deleted"));
    let new = check_create_run("req-2", Ok("balanced".to_string()), Ok(None)).ok().expect("a run");
    assert_eq!(create_run(new, "public", &None, true, 1, OTHER, "req-2").reply.status, 200);
}

#[test]
fn query_returns_request_id_when_valid() {
    let events = vec![
        event(1, RUN, "run_created", "{}"),
        event(2, RUN, "frames_decoded", "{}"),
    ];
    let payload = parse_json(&format!(r#"{{"run_id":"{RUN}","kind":"frames_decoded"}}"#)).unwrap();
    let reply = query("req-1", &payload, &mine(), "public", &events);
    assert_eq!(reply.status, 200);
    assert_eq!(reply.body.text_at("request_id"), Some("req-1"));
    assert_eq!(reply.body.items_at("matches").map(|m| m.len()), Some(1));
    let nameless = parse_json("{}").unwrap();
    assert_eq!(query("req-1", &nameless, &mine(), "public", &events).status, 422);
}

#[test]
fn events_and_interactions_are_told_by_index() {
    let events = vec![
        event(1, RUN, "run_created", r#"{"principal_key":"public","mode":"balanced","model":"m"}"#),
        event(2, RUN, "gate", r#"{"index_name":"a"}"#),
        event(3, RUN, "gate", r#"{"index_name":"b"}"#),
    ];
    let all = get_events("req-1", RUN, &mine(), "public", &events, &EventsQueryParams { index: None });
    assert_eq!(all.body.items_at("events").map(|e| e.len()), Some(3));
    let a = get_events("req-1", RUN, &mine(), "public", &events, &EventsQueryParams { index: Some("a".to_string()) });
    assert_eq!(a.body.items_at("events").map(|e| e.len()), Some(1));
    let none = get_interactions("req-1", RUN, &mine(), "public", &events, &InteractionsQueryParams { index: None });
    assert_eq!(none.status, 200);
    let metadata = extract_run_metadata(&events);
    assert_eq!((metadata.mode.as_str(), metadata.model.as_str()), ("balanced", "m"));
    assert_eq!((metadata.created_at_ms, metadata.updated_at_ms), (1_000, 3_000));
    assert_eq!(get_run("req-1", RUN, &mine(), "public", &events).status, 200);
    assert_eq!(label_map_key_from_principal("public"), None);
}

fn marker(frame: u64, status: &str) -> MarkerEvent {
    MarkerEvent {
        kind: "marker_emitted".to_string(),
        marker: Some(AnalyzeMarker {
            marker_id: format!("m{frame}"),
            run_id: RUN.to_string(),
            stream_id: "stream-0".to_string(),
            event_type: "scene_cut".to_string(),
            status: status.to_string(),
            start_frame: frame,
            end_frame: frame + 1,
            start_pts_ms: frame * 33,
            end_pts_ms: frame * 33 + 33,
            confidence: single(0.5),
            supersedes_marker_id: None,
        }),
    }
}

#[test]
fn markers_are_chosen_and_ordered() {
    let events = vec![marker(9, "provisional"), marker(3, "finalized"), marker(6, "finalized")];
    let all = MarkerQueryParams { status: None, event_type: None, from_frame: None, to_frame: None };
    let reply = get_markers("req-1", RUN, &mine(), "public", &events, &all);
    assert_eq!(reply.status, 200);
    let ids: Vec<&str> =
        reply.body.items_at("markers").unwrap().iter().map(|m| m.text_at("marker_id").unwrap()).collect();
    assert_eq!(ids, vec!["m3", "m6", "m9"]);
    let finalized = MarkerQueryParams {
        status: Some("finalized".to_string()),
        event_type: None,
        from_frame: Some(5),
        to_frame: None,
    };
    let reply = get_markers("req-1", RUN, &mine(), "public", &events, &finalized);
    assert_eq!(reply.body.items_at("markers").map(|m| m.len()), Some(1));
}

#[test]
fn searches_look_only_into_runs_of_the_caller() {
    let events = vec![
        event(1, RUN, "run_created", r#"{"principal_key":"public"}"#),
        event(2, OTHER, "run_created", r#"{"principal_key":"api-key:b"}"#),
        event(3, RUN, "chunk_semantic", r#"{"description":"A RED Car stops"}"#),
        event(4, OTHER, "chunk_semantic", r#"{"description":"A red car leaves"}"#),
    ];
    let request = SearchRequest { query: "red CAR".to_string(), run_id: None, limit: None };
    let reply = search("req-1", &request, &None, "public", &events);
    assert_eq!(reply.status, 200);
    assert_eq!(reply.body.unsigned_at("total_hits"), Some(1));
    let empty = SearchRequest { query: " ".to_string(), run_id: None, limit: None };
    assert_eq!(search("req-1", &empty, &None, "public", &events).status, 422);
    let payload = parse_json(r#"{"description":"ÀB"}"#).unwrap();
    assert!(hit_in_payload(&events[2], &payload, "àb").is_some());
    assert!(hit_in_payload(&events[2], &payload, "x").is_none());
}

#[test]
fn searches_read_descriptions_of_the_asked_run_only() {
    let events = vec![
        event(1, RUN, "run_created", r#"{"principal_key":"public"}"#),
        event(2, RUN, "vlm", r#"{"summary":"a red car"}"#),
        event(3, OTHER, "vlm", r#"{"description":"a red car"}"#),
        event(4, OTHER, "run_deleted", "{}"),
        event(5, RUN, "vlm", r#"{"description":"a Red Car","summary":"none"}"#),
    ];
    let request =
        SearchRequest { query: "red car".to_string(), run_id: Some(RUN.to_string()), limit: None };
    let reply = search("req-1", &request, &mine(), "public", &events);
    assert_eq!(reply.status, 200);
    assert_eq!(reply.body.unsigned_at("scanned"), Some(3));
    assert_eq!(reply.body.unsigned_at("total_hits"), Some(1));
    let hits = reply.body.items_at("hits").unwrap();
    assert_eq!(hits.len(), 1);
    assert_eq!(hits[0].unsigned_at("seq"), Some(5));
    let gone =
        SearchRequest { query: "red car".to_string(), run_id: Some(OTHER.to_string()), limit: None };
    assert_eq!(search("req-1", &gone, &mine(), "public", &events).status, 404);
}

#[test]
fn runs_are_listed_for_their_owner() {
    let events = vec![
        event(1, RUN, "run_created", r#"{"principal_key":"public"}"#),
        event(2, OTHER, "run_created", r#"{"principal_key":"api-key:b"}"#),
        event(3, RUN, "gate", "{}"),
    ];
    assert_eq!(distinct_run_ids(&events).len(), 2);
    let known = vec![
        KnownRun { run_id: RUN.to_string(), snapshot: mine().unwrap() },
        KnownRun { run_id: OTHER.to_string(), snapshot: snapshot("api-key:b", false, false).unwrap() },
    ];
    let reply = list_runs(&events, &known, "public");
    assert_eq!(reply.status, 200);
    let rows = match &reply.body {
        Json::Array(rows) => rows.len(),
        other => other.items_at("runs").map(|r| r.len()).unwrap_or(0),
    };
    assert_eq!(rows, 1);
}

#[test]
fn file_endpoint_requires_owner_prefix_and_video_extension() {
    let policy = SecurityPolicy::from_test_policy(
        true,
        vec!["key-a".to_string(), "key-b".to_string()],
        false,
        false,
        vec![],
    );
    let asked_with = |key: &str| RequestFacts {
        is_options: false,
        path: "/v1/files/x".to_string(),
        origin: None,
        has_origin: false,
        has_request_method: false,
        api_key: Some(key.to_string()),
        tenant_id: None,
    };
    let principal = format!("api-key:{}", strong_hash_hex("key-a"));
    assert_eq!(policy.principal_key(&asked_with("key-a")), principal);
    let prefix = upload_owner_prefix_from_principal(&principal);
    assert_eq!(prefix, format!("{}__", strong_hash_hex(&principal)));
    let other = policy.principal_key(&asked_with("key-b"));
    let other_prefix = upload_owner_prefix_from_principal(&other);
    let filename = format!("{prefix}owned.mp4");
    let bad_ext = format!("{prefix}owned.txt");
    assert!(allowed_served_file_extension("clip.MP4"));
    assert!(!allowed_served_file_extension(&bad_ext));
    assert!(filename_is_visible_to_principal(&filename, &principal, &prefix));
    assert!(!filename_is_visible_to_principal(&filename, &other, &other_prefix));
    assert!(!filename_is_visible_to_principal(&filename, "public", "public__"));
    assert!(check_served_name("../clip.mp4").is_some());
    assert!(check_served_name("clip.mp4").is_none());
    assert_eq!(media_type_of("clip.webm"), "video/webm");
    let found = |name: &str, uploads: bool| FoundFile {
        inside_root: true,
        inside_uploads: uploads,
        regular_name: Some(name.to_string()),
    };
    assert!(matches!(
        serve_file(&filename, &vec![found(&filename, true)], &other, &other_prefix),
        ServeAnswer::NotFound
    ));
    assert!(matches!(
        serve_file(&filename, &vec![found(&filename, true)], &principal, &prefix),
        ServeAnswer::File(0, "video/mp4")
    ));
    assert!(matches!(
        serve_file("clip.mp4", &vec![found("clip.mp4", false)], &principal, &prefix),
        ServeAnswer::File(0, "video/mp4")
    ));
    assert!(matches!(
        serve_file(&bad_ext, &vec![found(&bad_ext, true)], &principal, &prefix),
        ServeAnswer::Refused(_)
    ));
}

#[test]
fn public_uploads_use_shared_public_namespace_and_can_be_served() {
    let prefix = upload_owner_prefix_from_principal("public");
    assert_eq!(prefix, "public__");
    let stored = upload_file("req-1", Some("clip.mp4"), &prefix).ok().expect("a name");
    assert!(stored.starts_with("public__"));
    assert!(stored.ends_with("clip.mp4"));
    assert!(filename_is_visible_to_principal(&stored, "public", &prefix));
    let path = format!("/up/{stored}");
    let file = found_file(path.as_bytes(), b"/up", Some(b"/up".as_slice()), true);
    assert!(matches!(
        serve_file(&stored, &vec![file], "public", &prefix),
        ServeAnswer::File(0, "video/mp4")
    ));
    let odd = upload_file("req-1", Some("My clip (1).mp4"), &prefix).ok().expect("a name");
    assert!(odd.ends_with(&sanitized_name("My clip (1).mp4")));
    assert_eq!(upload_without_file("req-1").status, 422);
    assert_eq!(upload_reply("req-1", "/up/x.mp4", None).status, 200);
    assert_eq!(upload_reply("req-1", "/up/x.mp4", Some(PLAYLIST_PROBLEM)).status, 422);
}

#[test]
fn uploads_are_media_and_no_playlists() {
    assert!(looks_like_playlist(b"\n#EXTM3U\n"));
    assert!(!looks_like_playlist(b"\x00\x00\x00\x18ftypmp42"));
    let ended = |text: &str| ProbeOutcome::Ended(true, text.as_bytes().to_vec());
    assert_eq!(validate_uploaded_media_container(b"#EXTM3U", &ended("mov,mp4")), Some(PLAYLIST_PROBLEM));
    assert!(validate_uploaded_media_container(b"\x00\x00", &ended("format_name=mov,mp4,m4a\n")).is_none());
    assert!(validate_uploaded_media_container(b"\x00\x00", &ProbeOutcome::TimedOut).is_some());
    assert!(validate_uploaded_media_container(b"\x00\x00", &ProbeOutcome::Failed).is_some());
}

#[test]
fn sources_are_found_behind_their_scheme() {
    let path = |source: &str| requested_file_path_for_visibility(source);
    assert_eq!(path(" /tmp/a.mp4").as_deref(), Some(b"/tmp/a.mp4".as_slice()));
    assert_eq!(path("file:///tmp/a.mp4").as_deref(), Some(b"/tmp/a.mp4".as_slice()));
    assert_eq!(path("file:///tmp/%FF.mp4").as_deref(), Some(b"/tmp/\xff.mp4".as_slice()));
    assert_eq!(requested_file_path_for_visibility("https://example.com/a.mp4"), None);
    assert_eq!(
        path_asked_for("file:///tmp/a b", &Some("file".to_string()), Some(b"/tmp/a b".to_vec())).as_deref(),
        Some(b"/tmp/a b".as_slice())
    );
    let uploads = Some("/up".to_string());
    let roots = vec!["/data".to_string(), "/up".to_string()];
    assert!(ingest_file_roots_with_upload_root(&uploads, &roots).contains(&"/up".to_string()));
    assert!(file_serve_roots(&uploads, &roots).contains(&"/data".to_string()));
    let theirs = SourceLookup::File(FoundFile {
        inside_root: true,
        inside_uploads: true,
        regular_name: Some("0def__clip.mp4".to_string()),
    });
    assert!(enforce_file_source_visibility("req-1", "c", &theirs, "api-key:a", "0abc__").is_some());
    assert!(enforce_file_source_visibility("req-1", "c", &SourceLookup::NotAFile, "api-key:a", "0abc__").is_none());
    assert!(check_source("req-1", "c", &Err("no route".to_string()), "public", "public__").is_some());
}

#[test]
fn ingest_rejects_unknown_fields_and_missing_source() {
    let check = |text: &str| {
        check_ingest("req-1", RUN, &mine(), "public", &parse_json(text).unwrap())
            .err()
            .map(|r| r.status)
    };
    assert_eq!(check(r#"{"frame_index":1}"#), Some(422));
    let state = get_state("req-1", RUN, &in_state("pending"), "public");
    assert_eq!((state.status, state.body.text_at("state")), (200, Some("pending")));
    assert_eq!(check(r#"{"source_uri":"/tmp/a.mp4","bogus":1}"#), Some(422));
    assert_eq!(check("{}"), Some(422));
    assert_eq!(check(r#"{"source_uri":"/tmp/a.mp4"}"#), None);
}

#[test]
fn decoded_sources_are_written_down() {
    let payload = parse_json(r#"{"source_uri":"/tmp/a.mp4","stream_id":"cam"}"#).unwrap();
    let params = check_ingest("req-1", RUN, &mine(), "public", &payload).ok().expect("parameters");
    assert_eq!(params.stream_id, "cam");
    let decoded = DecodedSource {
        source_uri: "/tmp/a.mp4".to_string(),
        width: 640,
        height: 480,
        pixel_format: "rgb24".to_string(),
        frame_signals: vec![signal(0, 0), signal(1, 500)],
        coordinates: None,
    };
    let plan = ingest_run("req-1", RUN, &payload, &params, &Ok(decoded), Some(single(2.0)));
    assert_eq!(plan.reply.status, 200);
    assert!(plan.appends.iter().any(|a| a.kind == "frames_decoded"));
    let failed = ingest_run("req-1", RUN, &payload, &params, &Err("no decoder".to_string()), None);
    assert!(failed.reply.status >= 400);
    assert_eq!(
        f32::from_bits(effective_sample_fps(SamplingPolicy::Fixed, None, double(2.0)).bits),
        2.0
    );
}

fn signal(frame_index: u64, pts_ms: u64) -> FrameSignal {
    FrameSignal {
        frame_index,
        pts_ms,
        perceptual_hash: 1,
        luma_mean: single(0.5),
        flicker_score: single(0.1),
        ghosting_score: single(0.1),
        noise_variance_score: single(0.1),
    }
}

fn analyze_request(policy: Option<&str>, fps: Option<f32>, step_ms: u64, frames: u64) -> AnalyzeFramesRequest {
    AnalyzeFramesRequest {
        mode: None,
        model: "Qwen/Qwen3-VL-4B-Instruct".to_string(),
        stream_id: None,
        sampling_policy: policy.map(|p| p.to_string()),
        fixed_fps: fps.map(single),
        frames: (0..frames)
            .map(|i| AnalyzeFrameInput {
                frame_index: i,
                pts_ms: i * step_ms,
                perceptual_hash: i + 1,
                luma_mean: single(if i == 0 { 0.2 } else { 0.3 }),
                flicker_score: single(if i == 0 { 0.0 } else { 0.1 }),
                ghosting_score: single(0.0),
                noise_variance_score: single(0.0),
            })
            .collect(),
        window_size: None,
        segment_ms: None,
        trace_id: None,
    }
}

fn checked(request: &AnalyzeFramesRequest) -> Result<AnalyzeParams, Reply> {
    check_analyze(
        "req-1",
        RUN,
        &mine(),
        "public",
        request,
        &Ok("balanced".to_string()),
        &Ok(request.model.clone()),
    )
}

/// Frames with the labels of the rules alone.
fn gated(signals: &Vec<FrameSignal>) -> Vec<LabeledFrame> {
    signals
        .iter()
        .map(|signal| {
            let frame = FrameMetadata {
                frame_index: signal.frame_index,
                pts_ms: signal.pts_ms,
                segment_start_ms: 0,
                segment_end_ms: 250,
                scene_cut: signal.frame_index == 0,
                suspect_artifact: false,
                gate_event: GateEventType::Other,
                confidence: single(0.75),
                score_summary: "scores".to_string(),
            };
            let labels = frame_labels(&frame, None);
            LabeledFrame {
                frame,
                event: MappedLabel { label: labels.event_type, used_fallback: false },
                object: MappedLabel { label: labels.object_label, used_fallback: false },
            }
        })
        .collect()
}

/// The reply to a request for analysis, and the rows that it tells.
fn analyzed(request: &AnalyzeFramesRequest, events: &Vec<TimelineEvent>, readable: bool) -> Reply {
    let params = checked(request).ok().expect("parameters");
    let input = analyze_input("req-1", request, events, readable).ok().expect("signals");
    let context = analyze_context("req-1", RUN, request, &params, &input, single(7.5));
    let frames = gated(&input.signals);
    let (mut rows, mut inputs) = (Vec::new(), Vec::new());
    compose_rows(&context, &frames, &None, false, &None, &mut rows, &mut inputs);
    let plan = analyze_run(&context, params.window_size, &rows, &rated(&inputs));
    assert_eq!(plan.reply.status, 200);
    plan.reply
}

/// Runs of frames, each as certain as its first frame.
fn rated(inputs: &Vec<MarkerInput>) -> Vec<RatedSegment> {
    segment_inputs(inputs)
        .into_iter()
        .map(|segment| {
            let confidence = inputs[segment.first].confidence;
            RatedSegment { segment, confidence, confidence_with_next: confidence }
        })
        .collect()
}

#[test]
fn analyze_fixed_sampling_requires_fixed_fps() {
    let request = analyze_request(Some("fixed"), None, 33, 1);
    let refused = match checked(&request) {
        Ok(_) => analyze_input("req-1", &request, &vec![], false).err(),
        Err(reply) => Some(reply),
    };
    assert_eq!(refused.map(|r| r.status), Some(422));
}

#[test]
fn analyze_fixed_sampling_emits_policy_and_rate() {
    let request = analyze_request(Some("fixed"), Some(3.0), 333, 2);
    let input = analyze_input("req-1", &request, &vec![], false).ok().expect("signals");
    assert!(matches!(input.sample_rate, SampleRate::Given(rate) if rate.bits == 3.0f32.to_bits()));
    let reply = analyzed(&request, &vec![], false);
    let first = &reply.body.items_at("metadata").unwrap()[0];
    assert_eq!(first.text_at("sampling_policy"), Some("fixed"));
    assert_eq!(first.double_at("sample_fps"), Some(double(3.0)));
}

#[test]
fn analyze_without_frames_requires_decoded_ingest_signals() {
    let request = analyze_request(None, None, 33, 0);
    let refused = analyze_input("req-1", &request, &vec![event(1, RUN, "run_created", "{}")], false)
        .err()
        .expect("a refusal");
    assert_eq!(refused.status, 422);
    let problem = "frames must be provided when no decoded ingest frames exist";
    assert_eq!(error_in(&refused).2, vec![("frames".to_string(), problem.to_string())]);
}

const COORDINATES: &str = r#"{"source_extent":{"width":640,"height":480},"analysis_extent":{"width":640,"height":480},"requested_region":{"x":0.0,"y":0.0,"width":1.0,"height":1.0}}"#;

/// What an ingest leaves in the log.
fn ingested(coordinates: Option<Json>) -> Vec<TimelineEvent> {
    let payload = parse_json(r#"{"source_uri":"/tmp/a.mp4"}"#).unwrap();
    let params = check_ingest("req-1", RUN, &mine(), "public", &payload).ok().expect("parameters");
    let decoded = DecodedSource {
        source_uri: "/tmp/a.mp4".to_string(),
        width: 640,
        height: 480,
        pixel_format: "rgb24".to_string(),
        frame_signals: vec![signal(0, 0), signal(1, 500)],
        coordinates,
    };
    let plan = ingest_run("req-1", RUN, &payload, &params, &Ok(decoded), Some(single(2.0)));
    let written = plan.appends.iter().find(|a| a.kind == "frames_decoded").expect("an event");
    vec![event(1, RUN, "frames_decoded", &written_down(&written.payload))]
}

fn written_down(json: &Json) -> String {
    value_of(json).to_string()
}

fn value_of(json: &Json) -> serde_json::Value {
    match json {
        Json::Null => serde_json::Value::Null,
        Json::Bool(b) => (*b).into(),
        Json::Number(JsonNumber::Unsigned(n)) => (*n).into(),
        Json::Number(JsonNumber::Signed(n)) => (*n).into(),
        Json::Number(JsonNumber::Fraction(d)) => f64::from_bits(d.bits).into(),
        Json::Text(s) => s.as_str().into(),
        Json::Array(items) => items.iter().map(value_of).collect::<Vec<_>>().into(),
        Json::Object(fields) => serde_json::Value::Object(
            fields.iter().map(|(name, value)| (name.clone(), value_of(value))).collect(),
        ),
    }
}

#[test]
fn analyzed_rows_carry_the_coordinates_of_the_ingest() {
    assert_eq!(IMAGE_COORDINATE_SCHEMA, "vidarax.image.v1");
    let request = analyze_request(None, None, 33, 0);
    let events = ingested(parse_json(COORDINATES));
    let kept = last_coordinates(&events).expect("coordinates");
    assert_eq!(value_of(&kept), value_of(&parse_json(COORDINATES).unwrap()));
    let reply = analyzed(&request, &events, true);
    assert_eq!(reply.body.unsigned_at("generated"), Some(2));
    for row in reply.body.items_at("metadata").unwrap() {
        assert_eq!(row.text_at("coordinate_schema"), Some("vidarax.image.v1"));
        let coordinates = row.get("coordinates").expect("coordinates");
        let region = coordinates.get("requested_region").unwrap();
        assert_eq!(region.double_at("width"), Some(double(1.0)));
        let (analysis, source) = (coordinates.get("analysis_extent"), coordinates.get("source_extent"));
        assert_eq!(analysis.map(value_of), source.map(value_of));
    }
    let plain = analyzed(&request, &ingested(None), false);
    let row = &plain.body.items_at("metadata").unwrap()[0];
    assert!(row.get("coordinate_schema").is_none() && row.get("coordinates").is_none());
    assert!(last_coordinates(&ingested(None)).is_none());
}

#[test]
fn unreadable_and_missing_coordinates_are_refused() {
    let request = analyze_request(None, None, 33, 0);
    let events = ingested(parse_json(COORDINATES));
    let refused = analyze_input("req-1", &request, &events, false).err().expect("a refusal");
    assert_eq!(refused.status, 422);
    assert_eq!(error_in(&refused).2[0].1, "decoded ingest coordinates are invalid");
    let mut payload = value_of(&parse_json(&events[0].payload).unwrap());
    payload.as_object_mut().unwrap().remove("coordinates");
    let without = vec![event(1, RUN, "frames_decoded", &payload.to_string())];
    let refused = analyze_input("req-1", &request, &without, true).err().expect("a refusal");
    assert_eq!(error_in(&refused).2[0].1, "decoded ingest payload is missing coordinates");
    payload.as_object_mut().unwrap().remove("coordinate_schema");
    let plain = vec![event(1, RUN, "frames_decoded", &payload.to_string())];
    let input = analyze_input("req-1", &request, &plain, false).ok().expect("signals");
    assert!(input.coordinates.is_none());
}

#[test]
fn rows_follow_the_request_that_they_answer() {
    let mut request = analyze_request(None, None, 33, 2);
    request.stream_id = Some("cam".to_string());
    request.trace_id = Some("trace-x".to_string());
    let params = checked(&request).ok().expect("parameters");
    let input = analyze_input("req-9", &request, &vec![], false).ok().expect("signals");
    let context = analyze_context("req-9", RUN, &request, &params, &input, single(30.0));
    assert_eq!((context.run_id.as_str(), context.stream_id.as_str()), (RUN, "cam"));
    assert_eq!((context.mode.as_str(), context.model.as_str()), ("balanced", request.model.as_str()));
    assert_eq!((context.request_id.as_str(), context.trace_id.as_str()), ("req-9", "trace-x"));
    assert_eq!((context.segment_ms, context.sample_fps), (250, single(30.0)));
    assert!(context.coordinates.is_none());
}

fn context() -> RowContext {
    RowContext {
        run_id: RUN.to_string(),
        stream_id: stream_id_for(&None),
        mode: "balanced".to_string(),
        model: "m".to_string(),
        sampling_policy: SamplingPolicy::Fixed,
        sample_fps: single(2.0),
        segment_ms: 1_000,
        request_id: "req-1".to_string(),
        trace_id: trace_id_for(&None, "req-1"),
        coordinates: None,
    }
}

#[test]
fn analyze_endpoint_generates_metadata() {
    let frame = FrameMetadata {
        frame_index: 4,
        pts_ms: 2_000,
        segment_start_ms: 2_000,
        segment_end_ms: 3_000,
        scene_cut: true,
        suspect_artifact: false,
        gate_event: GateEventType::Other,
        confidence: single(0.75),
        score_summary: "scores".to_string(),
    };
    let labels = frame_labels(&frame, None);
    assert_eq!(labels.event_type, "scene_cut");
    let event_label = MappedLabel { label: labels.event_type.clone(), used_fallback: false };
    let object_label = MappedLabel { label: labels.object_label.clone(), used_fallback: true };
    let (row, input) =
        compose_frame_metadata(&context(), &frame, labels, event_label, object_label, false, None);
    assert_eq!(row.frame_index, 4);
    assert_eq!(row.window.start_ms, 2_000);
    assert!(row.fallback.used);
    assert_eq!(input.frame_index, 4);
    assert_eq!(input.event_type, "scene_cut");
    let plan = analyze_run(&context(), 1, &vec![row], &vec![]);
    assert_eq!(plan.reply.status, 200);
    assert_eq!(plan.reply.body.unsigned_at("generated"), Some(1));
    let reply = analyzed(&analyze_request(None, None, 33, 2), &vec![], false);
    assert_eq!(reply.body.unsigned_at("generated"), Some(2));
    let first = &reply.body.items_at("metadata").unwrap()[0];
    assert!(first.text_at("ordering_key").is_some());
    assert!(first.text_at("sampling_policy").is_some());
}

#[test]
fn files_lie_in_directories_by_their_parts() {
    assert!(is_inside(b"/data/a/b.mp4", b"/data"));
    assert!(is_inside(b"/data/a/b.mp4", b"/data/a"));
    assert!(is_inside(b"/data", b"/data"));
    assert!(is_inside(b"/data/a", b"/"));
    assert!(!is_inside(b"/database/a.mp4", b"/data"));
    assert!(!is_inside(b"/dat", b"/data"));
    let roots = vec!["/up".to_string(), "/data".to_string(), "/".to_string()];
    assert_eq!(root_of(b"/data/a.mp4", &roots), Some(1));
    assert_eq!(root_of(b"/etc/a.mp4", &roots), Some(2));
    assert_eq!(root_of(b"/etc/a.mp4", &vec!["/up".to_string()]), None);
    let file = found_file(b"/up/x/public__clip.mp4", b"/up", Some(b"/data".as_slice()), true);
    assert!(file.inside_root && !file.inside_uploads);
    assert_eq!(file.regular_name.as_deref(), Some("public__clip.mp4"));
    assert!(found_file(b"/up/clip.mp4", b"/up", None, false).regular_name.is_none());
    assert!(found_file(b"/up/\xff.mp4", b"/up", None, true).regular_name.is_none());
    assert!(!found_file(b"/etc/clip.mp4", b"/up", None, true).inside_root);
}

#[test]
fn schemas_are_sent_compactly() {
    let request = infer_request("{ \"type\" : \"object\",\n \"minimum\": 1 }");
    let model = Ok(request.model.clone());
    let prepared = validate_infer_request("req-1", "c", &request, &model, &None, "public").ok().unwrap();
    assert_eq!(prepared.request.guided_json.as_deref(), Some(r#"{"minimum":1,"type":"object"}"#));
    let mut asked = reason_request();
    asked.output_schema = Some("{ \"type\": \"array\" }".to_string());
    let found = Ok(SourceLookup::NotAFile);
    let params = check_reason(
        "req-1",
        RUN,
        &mine(),
        "public",
        "public__",
        &asked,
        &Ok("balanced".to_string()),
        &Ok(asked.model.clone()),
        &found,
    )
    .ok()
    .expect("parameters");
    let decoded = DecodeOutcome::Decoded(vec![signal(0, 0), signal(1, 500)]);
    let coordinates = parse_json(COORDINATES);
    let start = reason_realtime_run(
        "req-1", RUN, &asked, &params, &decoded, &coordinates, None, None, 500, CLIP_RESOLUTION, true,
    )
    .ok()
    .expect("a beginning");
    assert_eq!(start.guided_json.as_deref(), Some(r#"{"type":"array"}"#));
    assert_eq!(start.context.coordinates.as_ref().map(value_of), coordinates.as_ref().map(value_of));
}

#[test]
fn sample_rates_follow_the_frames() {
    let spacing = estimate_sample_fps(&vec![signal(0, 0), signal(1, 500), signal(2, 1_000)]).expect("a rate");
    assert_eq!((spacing.sum_ms, spacing.count), (1_000, 2));
    assert!(estimate_sample_fps(&vec![signal(0, 0)]).is_none());
    assert!(f32::from_bits(adaptive_sample_fps(single(30.0)).bits) > 0.0);
}

fn answer(text: &str) -> ProviderAnswer {
    ProviderAnswer {
        provider: ProviderKind::Vllm,
        model: "test-model".to_string(),
        fallback_used: false,
        output_text: text.to_string(),
        finish_reason: Some("stop".to_string()),
        inference_latency_ms: 12,
        usage: TokenUsage { prompt_tokens: 7, completion_tokens: 8, thinking_tokens: 0, total_tokens: 15 },
    }
}

#[test]
fn infer_uses_external_provider_and_returns_text() {
    let mut request = infer_request("{}");
    request.prompt = "hello".to_string();
    request.output_schema = None;
    let model = Ok(request.model.clone());
    let prepared = validate_infer_request("req-1", "c", &request, &model, &None, "public").ok().unwrap();
    assert_eq!(prepared.primary_provider.name(), "vllm");
    assert!(prepared.request.guided_json.is_none());
    let mut metrics = InferenceMetrics::new();
    let done = finish_infer("req-1", &prepared, InferOutcome::Answered(answer("hello from provider")), 12, &mut metrics)
        .ok()
        .expect("an answer");
    assert!(done.append.is_none());
    assert_eq!(done.response.output_text, "hello from provider");
    assert_eq!(metrics.vllm.success_total, 1);
    let reply = infer("req-1", &Ok(done.response));
    assert_eq!(reply.status, 200);
    assert_eq!(reply.body.text_at("provider"), Some("vllm"));
    assert_eq!(reply.body.text_at("output_text"), Some("hello from provider"));
}

#[test]
fn provider_failures_are_answered_by_their_kind() {
    for (failure, code) in [
        (InferFailure::UnsupportedModel, "validation_error"),
        (InferFailure::HttpStatus(503), "provider_error"),
        (InferFailure::Transport("reset".to_string()), "provider_error"),
        (InferFailure::InvalidResponse("no text".to_string()), "provider_error"),
    ] {
        let error = map_provider_execution_error(&failure);
        let reply = infer_execution_error_to_response("req-1", &error);
        assert!(reply.status >= 400, "{code}");
        if code == "validation_error" {
            assert_eq!(error.code, code);
            assert_eq!(reply.status, 422);
        } else {
            assert_ne!(error.code, "validation_error");
        }
    }
    assert_eq!(parse_provider(Some("sglang")).ok().map(|p| p.name()), Some("sglang"));
    assert!(parse_provider(Some("acme")).is_err());
}

#[test]
fn infer_batch_rejects_out_of_range_max_parallel() {
    let refused = check_batch("req-1", 1, Some(0)).err().expect("a refusal");
    assert_eq!((refused.status, field_of(&refused).as_str()), (422, "max_parallel"));
    assert_eq!(check_batch("req-1", 0, None).err().map(|r| r.status), Some(422));
    assert!(check_batch("req-1", 2, Some(1)).is_ok());
}

#[test]
fn infer_batch_returns_ordered_results() {
    let items = ["vllm", "sglang"]
        .iter()
        .zip(["hello", "hello again"])
        .map(|(provider, prompt)| {
            let mut payload = infer_request("{}");
            payload.prompt = prompt.to_string();
            payload.primary_provider = Some(provider.to_string());
            payload.output_schema = None;
            BatchItem { model: Ok(payload.model.clone()), payload, snapshot: None }
        })
        .collect();
    let (prepared, mut run) = infer_batch("req-1", true, &items, Some(2), "public").ok().expect("a batch");
    let mut metrics = InferenceMetrics::new();
    assert_eq!((run.next_request(), run.next_request(), run.next_request()), (Some(0), Some(1), None));
    for index in [1usize, 0] {
        let outcome = InferOutcome::Answered(answer("hello from provider"));
        let done = finish_infer("req-1", &prepared[index], outcome, 12, &mut metrics).ok().unwrap();
        assert!(run.request_done(index, Ok(done.response)));
    }
    let reply = run.finish("req-1");
    assert_eq!(reply.status, 200);
    assert_eq!(reply.body.unsigned_at("processed"), Some(2));
    assert_eq!(reply.body.unsigned_at("succeeded"), Some(2));
    assert_eq!(reply.body.unsigned_at("failed"), Some(0));
    let results = reply.body.items_at("results").unwrap();
    assert_eq!(results.len(), 2);
    for (at, result) in results.iter().enumerate() {
        assert_eq!(result.unsigned_at("index"), Some(at as u64));
        assert_eq!(result.flag_at("ok"), Some(true));
    }
}

#[test]
fn failures_stand_in_their_place_in_a_batch() {
    let request = infer_request("{}");
    let model = Ok(request.model.clone());
    let prepared = validate_infer_request("req-1", "c", &request, &model, &None, "public").ok().unwrap();
    let mut metrics = InferenceMetrics::new();
    let mut ledger = BatchLedger::new(3);
    for index in [2usize, 0] {
        let text = format!("answer {index}");
        let done = finish_infer("req-1", &prepared, InferOutcome::Answered(answer(&text)), 12, &mut metrics)
            .ok()
            .unwrap();
        ledger.record(index, Ok(done.response));
    }
    ledger.record(1, Err(map_provider_execution_error(&InferFailure::HttpStatus(500))));
    let reply = ledger.finish("req-1");
    assert_eq!(reply.status, 200);
    assert_eq!(reply.body.unsigned_at("succeeded"), Some(2));
    assert_eq!(reply.body.unsigned_at("failed"), Some(1));
    let results = reply.body.items_at("results").unwrap();
    let order: Vec<u64> = results.iter().map(|r| r.unsigned_at("index").unwrap()).collect();
    assert_eq!(order, vec![0, 1, 2]);
}

#[test]
fn models_catalog_reports_unavailable_without_provider_config() {
    let known = || vec![KnownModel { id: "m".to_string(), fallback_candidates: vec![] }];
    let reply = list_models("req-1", &known(), &vec![], None, false);
    assert_eq!(reply.status, 200);
    let models = reply.body.items_at("models").unwrap();
    assert_eq!(models[0].text_at("availability"), Some("unavailable"));
}

#[test]
fn models_catalog_reports_ready_with_reachable_providers() {
    let known = vec![KnownModel { id: "m".to_string(), fallback_candidates: vec![] }];
    let reply = list_models("req-1", &known, &vec![], Some(ProviderKind::Vllm), false);
    let models = reply.body.items_at("models").unwrap();
    assert_eq!(models[0].text_at("availability"), Some("ready"));
    assert_eq!(models[0].items_at("providers_available").map(|p| p.len()), Some(1));
}

#[test]
fn feedback_is_taken_in_bounds() {
    let good = FeedbackRequest { rating: 8, category: "quality".to_string(), feedback: None };
    assert!(submit_feedback("req-1", RUN, &good, &mine(), "public", true).is_ok());
    assert!(submit_feedback("req-1", RUN, &good, &mine(), "public", false).is_err());
    let high = FeedbackRequest { rating: 99, category: "quality".to_string(), feedback: None };
    assert_eq!(
        submit_feedback("req-1", RUN, &high, &mine(), "public", true).err().map(|r| r.status),
        Some(422)
    );
    assert_eq!(feedback_reply("req-1", RUN, true).status, 200);
}

#[test]
fn batches_are_carried_out_with_a_bound() {
    let items = |n: usize| -> Vec<BatchItem> {
        (0..n)
            .map(|_| {
                let payload = infer_request("{}");
                BatchItem { model: Ok(payload.model.clone()), payload, snapshot: None }
            })
            .collect()
    };
    assert_eq!(infer_batch("req-1", false, &items(1), None, "public").err().map(|r| r.status), Some(500));
    assert_eq!(infer_batch("req-1", true, &items(0), None, "public").err().map(|r| r.status), Some(422));
    let (prepared, mut run) =
        infer_batch("req-1", true, &items(3), Some(2), "public").ok().expect("a batch");
    assert_eq!(prepared.len(), 3);
    assert_eq!(run.next_request(), Some(0));
    assert_eq!(run.next_request(), Some(1));
    assert_eq!(run.next_request(), None);
    assert!(run.request_done(1, Err(no_provider_error())));
    assert!(!run.request_done(1, Err(no_provider_error())));
    assert_eq!(run.next_request(), Some(2));
    assert!(run.request_done(2, Err(not_logged_error("disk full"))));
    assert!(run.request_done(0, Err(no_provider_error())));
    assert!(run.is_idle());
    let reply = run.finish("req-1");
    assert_eq!(reply.body.unsigned_at("failed"), Some(3));
    let results = reply.body.items_at("results").unwrap();
    let message = results[2].get("error").and_then(|e| e.text_at("message"));
    assert_eq!(message, Some("failed to append inference event: disk full"));
    let request = infer_request("{}");
    let model = Ok(request.model.clone());
    assert_eq!(
        check_infer("req-1", false, &request, &model, &None, "public").err().map(|r| r.status),
        Some(500)
    );
    assert!(check_infer("req-1", true, &request, &model, &None, "public").is_ok());
}

fn reason_request() -> RealtimeReasonRequest {
    RealtimeReasonRequest {
        source_uri: "/tmp/a.mp4".to_string(),
        mode: None,
        model: "Qwen/Qwen3-VL-4B-Instruct".to_string(),
        stream_id: None,
        sampling_policy: Some("fixed".to_string()),
        fixed_fps: Some(single(2.0)),
        max_frames: Some(16),
        chunk_size: Some(8),
        window_size: None,
        segment_ms: None,
        marker_correction_window_frames: None,
        semantic_inference: Some(true),
        semantic_frames_per_chunk: Some(1),
        semantic_frame_max_edge: None,
        semantic_timeout_ms: None,
        primary_provider: None,
        semantic_prompt: None,
        first_pass_model: None,
        second_pass_model: None,
        second_pass_threshold: None,
        trace_id: None,
        output_schema: None,
        clip_mode: None,
        index_name: None,
        temporal_chain: None,
        visual_diff: None,
        gate_filter: None,
        vlm_concurrency: None,
        video_clip_mode: None,
        video_clip_duration_s: None,
    }
}

#[test]
fn realtime_reason_endpoint_generates_markers_and_lag_stats() {
    let payload = reason_request();
    let found = Ok(SourceLookup::File(FoundFile {
        inside_root: true,
        inside_uploads: false,
        regular_name: Some("a.mp4".to_string()),
    }));
    let check = |payload: &RealtimeReasonRequest| {
        check_reason(
            "req-1",
            RUN,
            &mine(),
            "public",
            "public__",
            payload,
            &Ok("balanced".to_string()),
            &Ok(payload.model.clone()),
            &found,
        )
    };
    let params = check(&payload).ok().expect("parameters");
    let mut small = reason_request();
    small.chunk_size = Some(4);
    assert_eq!(check(&small).err().map(|r| r.status), Some(422));

    let begin = |decoded: DecodeOutcome, provider: bool| {
        reason_realtime_run("req-1", RUN, &payload, &params, &decoded, &None, None, None, 500, CLIP_RESOLUTION, provider)
    };
    assert_eq!(begin(DecodeOutcome::Refused("no stream".to_string()), true).err().map(|r| r.status), Some(422));
    assert_eq!(begin(DecodeOutcome::Broke, true).err().map(|r| r.status), Some(500));
    let signals: Vec<FrameSignal> = (0..10).map(|i| signal(i, i * 500)).collect();
    let start = begin(DecodeOutcome::Decoded(signals), false).ok().expect("a beginning");
    assert_eq!(start.chunks.len(), 2);
    assert_eq!(start.context.trace_id, "trace-1");
    assert_eq!(start.opening.len(), 2);
    assert_eq!(start.opening[1].kind, "semantic_fallback_activated");
    assert!(!start.settings.available);

    let chunks: Vec<ReasonedChunk> = start
        .chunks
        .iter()
        .map(|prep| ReasonedChunk {
            prep: *prep,
            frames: (0..prep.chunk_len as u64)
                .map(|i| LabeledFrame {
                    frame: FrameMetadata {
                        frame_index: prep.frame_offset as u64 + i,
                        pts_ms: prep.pts_start_ms + i * 500,
                        segment_start_ms: prep.pts_start_ms,
                        segment_end_ms: prep.pts_end_ms,
                        scene_cut: false,
                        suspect_artifact: false,
                        gate_event: GateEventType::Other,
                        confidence: single(0.75),
                        score_summary: String::new(),
                    },
                    event: MappedLabel { label: "context_observation".to_string(), used_fallback: false },
                    object: MappedLabel { label: "frame_context".to_string(), used_fallback: false },
                })
                .collect(),
            result: ChunkSemanticResult::default(),
            process_ms: 9_000,
        })
        .collect();
    let (rows, inputs) = reason_rows(&start.context, &chunks);
    assert_eq!((rows.len(), inputs.len()), (10, 10));
    let plan = assemble_realtime_reason_response(
        &start.context,
        &chunks,
        &rows,
        &rated(&inputs),
        &start.markers,
        10,
        None,
        &payload.index_name,
    );
    assert_eq!(plan.reply.status, 200);
    assert_eq!(plan.reply.body.unsigned_at("generated"), Some(10));
    assert!(plan.reply.body.unsigned_at("markers_emitted").unwrap() >= 1);
    assert_eq!(plan.reply.body.unsigned_at("lag_p95_ms"), Some(8_500));
    assert!(plan.reply.body.unsigned_at("lag_p99_ms").is_some());
    assert!(plan.appends.iter().any(|a| a.kind == "semantic_chunk_generated"));
}
