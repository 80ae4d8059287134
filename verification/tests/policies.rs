use vidarax_api::ieee::Single;
use vidarax_api::json::{parse_json, Json};
use vidarax_api::policies::{
    reconstruct_policies, valid_promotion, NormalizedRect, PolicyParameters, PolicyRevision,
    PolicyStatus, RestrictedZoneParameters, POLICY_CREATED, POLICY_DEPLOY_ACKNOWLEDGED,
    POLICY_ROLLBACK_ACKNOWLEDGED, RESTRICTED_ZONE_EVENT,
};
use vidarax_api::policy_flow::{
    acknowledge_activation, acknowledge_rollback, activate_policy, apply_policy, authorize_run,
    check_replay, check_stage, create_policy, created_policy, display_revision, evaluate_replay,
    finish_apply, get_policy, list_policies, policy_response_after_transition,
    read_policy_request, reject_activation,
    reject_rollback, replay_policy, replay_reply, rollback_policy, validate_policy_request,
    validate_zone, ApplyStep, CreatePolicyRequest, DeploymentError, LiveApplication, LiveSession,
    RectEnds, ReplayPolicyRequest, SendOutcome,
};
use vidarax_api::runs::EventAppend;
use vidarax_api::timeline::TimelineEvent;

fn single(x: f32) -> Single {
    Single { bits: x.to_bits() }
}

fn number(s: Single) -> f32 {
    f32::from_bits(s.bits)
}

fn event(seq: u64, kind: &str, payload: &str) -> TimelineEvent {
    TimelineEvent {
        seq,
        run_id: "run-0000000000000001".to_string(),
        stream_id: "policy".to_string(),
        pts_ms: seq * 10,
        kind: kind.to_string(),
        payload: payload.to_string(),
    }
}

fn zone_parameters(threshold: f32) -> PolicyParameters {
    PolicyParameters {
        restricted_zone: Some(RestrictedZoneParameters {
            policy_id: "loading-bay".to_string(),
            policy_version: 1,
            device_id: "camera-1".to_string(),
            region: NormalizedRect {
                x: single(0.1),
                y: single(0.2),
                width: single(0.3),
                height: single(0.4),
            },
            enter_motion_score: single(threshold),
            exit_motion_score: single(0.2),
            enter_after_frames: 2,
            exit_after_frames: 3,
        }),
    }
}

fn ends(zone: &RestrictedZoneParameters) -> RectEnds {
    RectEnds {
        right: single(number(zone.region.x) + number(zone.region.width)),
        bottom: single(number(zone.region.y) + number(zone.region.height)),
    }
}

fn revision(revision: u64, status: PolicyStatus) -> PolicyRevision {
    PolicyRevision {
        revision,
        parent_revision: None,
        status,
        prompt: Some("watch the bay".to_string()),
        output_schema: None,
        parameters: PolicyParameters::none(),
        created_at_ms: 0,
        updated_at_ms: 0,
        effective_generation: None,
        effective_on_current_generation: false,
        deferred_fields: vec![],
    }
}

fn request(prompt: Option<&str>) -> CreatePolicyRequest {
    CreatePolicyRequest {
        parent_revision: None,
        prompt: prompt.map(|p| p.to_string()),
        output_schema: None,
        parameters: None,
    }
}

fn no_ends() -> RectEnds {
    RectEnds { right: single(0.0), bottom: single(0.0) }
}

#[test]
fn reconstruction_retires_previous_active_revision() {
    let events = vec![
        event(1, POLICY_CREATED, r#"{"parent_revision": null, "prompt": "one", "parameters": {}}"#),
        event(2, POLICY_DEPLOY_ACKNOWLEDGED, r#"{"revision": 1, "status": "shadow", "application": {}}"#),
        event(3, POLICY_DEPLOY_ACKNOWLEDGED, r#"{"revision": 1, "status": "canary", "application": {}}"#),
        event(4, POLICY_DEPLOY_ACKNOWLEDGED, r#"{"revision": 1, "status": "active", "application": {}}"#),
        event(5, POLICY_CREATED, r#"{"parent_revision": 1, "prompt": "two", "parameters": {}}"#),
        event(6, POLICY_DEPLOY_ACKNOWLEDGED, r#"{"revision": 5, "status": "active", "application": {"generation": 9}}"#),
    ];
    let policies = reconstruct_policies(&events);
    assert_eq!(policies[0].status, PolicyStatus::Retired);
    assert_eq!(policies[1].status, PolicyStatus::Active);
    assert_eq!(policies[1].effective_generation, Some(9));
}

#[test]
fn rollbacks_bring_an_older_revision_back() {
    let events = vec![
        event(1, POLICY_CREATED, r#"{"prompt": "one", "parameters": {}}"#),
        event(2, POLICY_CREATED, r#"{"parent_revision": 1, "prompt": "two", "parameters": {}}"#),
        event(3, POLICY_DEPLOY_ACKNOWLEDGED, r#"{"revision": 1, "status": "active", "application": {}}"#),
        event(4, POLICY_DEPLOY_ACKNOWLEDGED, r#"{"revision": 2, "status": "active", "application": {}}"#),
        event(5, POLICY_ROLLBACK_ACKNOWLEDGED, r#"{"revision": 1, "from_revision": 2, "application": {}}"#),
    ];
    let policies = reconstruct_policies(&events);
    assert_eq!(policies[0].status, PolicyStatus::Active);
    assert_eq!(policies[1].status, PolicyStatus::RolledBack);
}

#[test]
fn replay_reports_only_the_persisted_candidates_it_compares() {
    let mut policy = revision(1, PolicyStatus::Draft);
    policy.prompt = None;
    policy.parameters = zone_parameters(0.6);
    let events = vec![
        event(2, RESTRICTED_ZONE_EVENT, r#"{"confidence": 0.75}"#),
        event(3, RESTRICTED_ZONE_EVENT, r#"{"assertion":{"trigger":{"score":0.4}}}"#),
        event(4, RESTRICTED_ZONE_EVENT, "{}"),
        event(5, "keyframe_stored", r#"{"confidence": 1.0}"#),
    ];
    let all = ReplayPolicyRequest { from_seq: None, to_seq: None };
    let evaluation = evaluate_replay(&policy, &events, &all);
    assert_eq!(evaluation.candidate_events, 3);
    assert_eq!(evaluation.accepted_events, 1);
    assert_eq!(evaluation.rejected_events, 1);
    assert_eq!(evaluation.events_without_score, 1);
    assert!(evaluation.limitation.contains("cannot discover"));

    let made = event(
        1,
        POLICY_CREATED,
        r#"{"parameters":{"restricted_zone":{"policy_id":"loading-bay","policy_version":1,"device_id":"camera-1","region":{"x":0.1,"y":0.2,"width":0.3,"height":0.4},"enter_motion_score":0.6,"exit_motion_score":0.2,"enter_after_frames":2,"exit_after_frames":3}}}"#,
    );
    let mut events = events;
    events.insert(0, made);
    let (told, append) = replay_policy("req-1", 1, &events, &all).ok().expect("evaluation");
    assert_eq!(told.accepted_events, 1);
    assert_eq!(append.kind, "policy_replay_evaluated");
    assert_eq!(replay_reply("req-1", "run-0000000000000001", 6, &told).status, 200);
    assert_eq!(
        replay_policy("req-1", 2, &events, &all).err().map(|r| r.status),
        Some(404)
    );
    let backwards = ReplayPolicyRequest { from_seq: Some(5), to_seq: Some(4) };
    assert_eq!(check_replay("req-1", &backwards).map(|r| r.status), Some(422));
    assert!(check_replay("req-1", &all).is_none());
}

#[test]
fn restricted_zone_parameters_match_worker_invariants() {
    let zone = zone_parameters(0.6).restricted_zone.unwrap();
    let mut errors = Vec::new();
    validate_zone(&zone, ends(&zone), &mut errors);
    assert!(errors.is_empty());

    let mut invalid = zone_parameters(0.1).restricted_zone.unwrap();
    invalid.region.width = single(2.0);
    let mut errors = Vec::new();
    validate_zone(&invalid, ends(&invalid), &mut errors);
    assert_eq!(errors.len(), 2);
}

#[test]
fn live_policy_rejects_a_stale_generation_before_sending() {
    let policy = revision(2, PolicyStatus::Canary);
    let session = Some(LiveSession { session_id: "sess-policy".to_string(), generation: 7 });
    let result = apply_policy(&policy, &session, true, Some(6));
    assert!(matches!(
        result,
        ApplyStep::Refused(DeploymentError::StaleGeneration { expected: 6, current: 7 })
    ));
    assert!(matches!(
        apply_policy(&policy, &session, true, None),
        ApplyStep::Refused(DeploymentError::ExpectedGenerationRequired)
    ));
    assert!(matches!(apply_policy(&policy, &session, true, Some(7)), ApplyStep::Send { .. }));
    assert!(matches!(apply_policy(&policy, &None, true, None), ApplyStep::Done(_)));
    assert!(matches!(apply_policy(&policy, &session, false, None), ApplyStep::Done(_)));
}

#[test]
fn live_sessions_answer_or_fail() {
    let policy = revision(2, PolicyStatus::Active);
    let session = LiveSession { session_id: "sess".to_string(), generation: 7 };
    let done = finish_apply(&policy, &session, SendOutcome::Acknowledged).ok().expect("applied");
    assert!(done.prompt_acknowledged);
    assert_eq!(done.generation, Some(7));
    let closed = finish_apply(&policy, &session, SendOutcome::Closed("gone".to_string()));
    assert!(matches!(closed, Err(DeploymentError::GenerationClosed(_))));
    let late = finish_apply(&policy, &session, SendOutcome::TimedOut).err().expect("too late");
    assert_eq!(reject_activation(2, 5, PolicyStatus::Active, &late).kind, "policy_deployment_rejected");
    assert_eq!(reject_rollback(2, 3, 5, &late).kind, "policy_rollback_rejected");
    for (error, status) in [
        (DeploymentError::ExpectedGenerationRequired, 409),
        (DeploymentError::StaleGeneration { expected: 1, current: 2 }, 409),
        (DeploymentError::GenerationClosed("x".to_string()), 409),
        (DeploymentError::AcknowledgementTimeout, 503),
    ] {
        assert!(!error.reason().is_empty());
        assert_eq!(error.into_response("req-1").status, status);
    }
}

#[test]
fn promotions_follow_the_stages() {
    assert!(valid_promotion(PolicyStatus::Draft, PolicyStatus::Shadow));
    assert!(valid_promotion(PolicyStatus::Shadow, PolicyStatus::Canary));
    assert!(valid_promotion(PolicyStatus::Canary, PolicyStatus::Active));
    assert!(!valid_promotion(PolicyStatus::Draft, PolicyStatus::Active));
    assert!(!valid_promotion(PolicyStatus::Retired, PolicyStatus::Active));
    for status in [
        PolicyStatus::Draft,
        PolicyStatus::Shadow,
        PolicyStatus::Canary,
        PolicyStatus::Active,
        PolicyStatus::Retired,
        PolicyStatus::RolledBack,
    ] {
        assert_eq!(PolicyStatus::from_name(status.as_str()), Some(status));
    }
    assert_eq!(PolicyStatus::from_name("gone"), None);
    assert!(check_stage("req-1", PolicyStatus::Shadow).is_none());
    assert_eq!(check_stage("req-1", PolicyStatus::Draft).map(|r| r.status), Some(422));
}

fn written(seq: u64, append: EventAppend, payload: &str) -> TimelineEvent {
    assert!(matches!(append.payload, Json::Object(_)));
    event(seq, append.kind, payload)
}

#[test]
fn schemas_are_read_and_measured_as_they_are_written() {
    let read = |schema: &str| {
        read_policy_request("req-1", request(Some("watch")), &Some(schema.to_string()), no_ends())
    };
    let taken = read("{ \"type\" : \"object\" }").ok().expect("a request");
    assert_eq!(taken.output_schema.as_ref().and_then(|s| s.text_at("type")), Some("object"));
    assert_eq!(read("[1, 2]").err().map(|r| r.status), Some(422));
    let spaced = |name: usize| format!("{{    \"{}\"  :  1  }}", "x".repeat(name));
    assert!(spaced(65_530).len() > 65_536);
    assert!(read(&spaced(65_530)).is_ok());
    assert_eq!(read(&spaced(65_531)).err().map(|r| r.status), Some(422));
    let none = read_policy_request("req-1", request(None), &None, no_ends());
    assert_eq!(none.err().map(|r| r.status), Some(422));
}

#[test]
fn revisions_are_made_deployed_and_read_back() {
    assert!(validate_policy_request("req-1", &request(Some("watch")), 0, no_ends()).is_none());
    assert_eq!(
        validate_policy_request("req-1", &request(None), 0, no_ends()).map(|r| r.status),
        Some(422)
    );
    let made = create_policy("req-1", &request(Some("watch")), &vec![]).ok().expect("a revision");
    assert_eq!(made.payload.text_at("prompt"), Some("watch"));
    let mut stale = request(Some("watch"));
    stale.parent_revision = Some(9);
    assert_eq!(create_policy("req-1", &stale, &vec![]).err().map(|r| r.status), Some(409));
    assert_eq!(display_revision(None), "none");
    assert_eq!(display_revision(Some(3)), "3");

    let mut events = vec![written(1, made, r#"{"parent_revision":null,"prompt":"watch","parameters":{}}"#)];
    let revisions = reconstruct_policies(&events);
    assert_eq!(created_policy("req-1", "run-0000000000000001", &revisions, 1).status, 200);
    assert_eq!(list_policies("req-1", "run-0000000000000001", &revisions).status, 200);
    assert_eq!(get_policy("req-1", "run-0000000000000001", &revisions, 2).status, 404);

    let asked = activate_policy("req-1", &revisions, 1, PolicyStatus::Shadow, None)
        .ok()
        .expect("a promotion");
    assert_eq!(asked.append.kind, "policy_deployment_requested");
    assert_eq!(
        activate_policy("req-1", &revisions, 1, PolicyStatus::Active, None).err().map(|r| r.status),
        Some(409)
    );
    let application = LiveApplication {
        session_id: None,
        generation: None,
        prompt_acknowledged: false,
        effective_on_current_generation: false,
        deferred_fields: vec![],
        note: "",
    };
    let acknowledged = acknowledge_activation(1, 2, PolicyStatus::Shadow, &application);
    assert_eq!(acknowledged.payload.text_at("status"), Some("shadow"));
    events.push(written(3, acknowledged, r#"{"revision":1,"status":"shadow","application":{}}"#));
    let revisions = reconstruct_policies(&events);
    assert_eq!(revisions[0].status, PolicyStatus::Shadow);
    let told = policy_response_after_transition("req-1", "run-0000000000000001", &revisions, 1, &application);
    assert_eq!(told.status, 200);
    assert_eq!(rollback_policy("req-1", &revisions, 1, None).err().map(|r| r.status), Some(409));
    let back = acknowledge_rollback(1, 2, 5, &application);
    assert_eq!(back.payload.unsigned_at("from_revision"), Some(2));
    assert_eq!(
        authorize_run("req-1", "run-0000000000000001", &None, "public").map(|r| r.status),
        Some(404)
    );
}

#[test]
fn active_revisions_can_be_rolled_back() {
    let revisions = vec![revision(1, PolicyStatus::Retired), revision(2, PolicyStatus::Active)];
    let asked = rollback_policy("req-1", &revisions, 1, None).ok().expect("a way back");
    assert_eq!((asked.at, asked.from_revision), (0, 2));
    assert_eq!(asked.append.kind, "policy_rollback_requested");
    assert!(parse_json("{}").is_some());
}
