use vidarax_api::delivery_metrics::DeliveryMetrics;
use vidarax_api::event_stream::{
    cloud_event, cloud_event_text, event_id, note_sent, on_notification, replay_to_sse, stream_events,
    EventStreamQuery, LastEventId, MAX_FILTER_LEN, REPLAY_BATCH,
};
use vidarax_api::hook_worker::{HookWorker, WorkerAction, WorkerEvent, WorkerStage};
use vidarax_api::runs::RunSnapshot;
use vidarax_api::text_map::TextMap;
use vidarax_api::timeline::TimelineEvent;
use vidarax_api::webhook_delivery::{
    checkpoint_record, delivery_log_path_for, delivery_record, judge_response, judge_webhook_url,
    load_delivery_state, next_delivery, replay_cursor, retry_delay, settle_checkpoint,
    settle_delivery, settle_failure, sign_webhook, signature_text, truncate_error,
    validate_webhook_url, AttemptState, DeliveryAttempt, DeliveryRecord, MAX_DELIVERY_ATTEMPTS,
    MAX_WEBHOOK_BODY_BYTES, WEBHOOK_DELIVERY_LOG,
};
use vidarax_api::webhooks::{
    check_webhook_run, create_webhook, created_webhook, delete_webhook, deleted_webhook,
    list_webhooks, normalize_event_filters, random_webhook_id, register_webhook,
    restore_webhook_configs, webhook_id_from_bytes, webhook_matches, webhooks_enabled,
    webhooks_unavailable, HookRegistry, WebhookConfig, WorkerStatus, MAX_EVENT_FILTERS,
    MAX_WEBHOOKS,
};

fn event(seq: u64, run_id: &str, kind: &str, payload: &str) -> TimelineEvent {
    TimelineEvent {
        seq,
        run_id: run_id.to_string(),
        stream_id: "s".to_string(),
        pts_ms: 0,
        kind: kind.to_string(),
        payload: payload.to_string(),
    }
}

fn owned() -> Option<RunSnapshot> {
    Some(RunSnapshot {
        principal_key: "public".to_string(),
        deleted: false,
        terminal: false,
        state_name: "Created".to_string(),
        state_label: "created".to_string(),
    })
}

fn hook(id: &str, run_id: &str, kinds: &[&str]) -> WebhookConfig {
    WebhookConfig {
        webhook_id: id.to_string(),
        run_id: run_id.to_string(),
        url: "https://example.com/hook".to_string(),
        event_kinds: kinds.iter().map(|k| k.to_string()).collect(),
        registered_seq: 1,
    }
}

const RUN: &str = "run-0000000000000001";

#[test]
fn cloud_event_has_stable_identity_and_preserves_reference_payload() {
    let event = TimelineEvent {
        seq: 42,
        run_id: "run_abc".to_string(),
        stream_id: "camera-1".to_string(),
        pts_ms: 1234,
        kind: "keyframe_stored".to_string(),
        payload: r#"{"sha256":"abc","url":"/v1/runs/run_abc/keyframes/abc"}"#.to_string(),
    };
    let envelope = cloud_event(&event);
    assert_eq!(envelope.text_at("id"), Some("run_abc:42"));
    assert_eq!(envelope.unsigned_at("sequence"), Some(42));
    let data = envelope.get("data").expect("data");
    assert_eq!(data.text_at("sha256"), Some("abc"));
    assert_eq!(data.fields().map(|f| f.len()), Some(2));
    for (name, value) in envelope.fields().expect("object") {
        assert!(!name.contains("base64"));
        assert!(!value.as_str().unwrap_or("").contains("base64"));
    }
    assert_eq!(event_id(&event), "run_abc:42");
    let text = cloud_event_text(&event);
    assert_eq!(
        text,
        r#"{"data":{"sha256":"abc","url":"/v1/runs/run_abc/keyframes/abc"},"datacontenttype":"application/json","id":"run_abc:42","pts_ms":1234,"sequence":42,"source":"/v1/runs/run_abc","specversion":"1.0","subject":"camera-1","type":"dev.vidarax.timeline.keyframe_stored"}"#
    );
    assert!(!text.contains("base64"));
}

#[test]
fn webhook_filters_are_bounded_and_exclude_bookkeeping() {
    assert!(normalize_event_filters(&vec!["webhook_delivered".to_string()]).is_err());
    assert!(normalize_event_filters(&vec!["x".repeat(MAX_FILTER_LEN + 1)]).is_err());
    assert_eq!(
        normalize_event_filters(&vec!["vlm".into(), "vlm".into(), "gate".into()]).unwrap(),
        vec!["gate".to_string(), "vlm".to_string()]
    );
    let many: Vec<String> = (0..MAX_EVENT_FILTERS + 1).map(|i| format!("k{i}")).collect();
    assert!(normalize_event_filters(&many).is_err());
    assert!(normalize_event_filters(&vec![" ".to_string()]).is_err());
}

#[test]
fn restores_registered_webhooks_and_applies_deletions() {
    let events = vec![
        event(1, "run-a", "webhook_registered", r#"{"webhook_id":"wh_a","url":"https://example.com/hook","event_kinds":["vlm"]}"#),
        event(2, "run-a", "webhook_deleted", r#"{"webhook_id":"wh_a"}"#),
        event(3, "run-b", "webhook_registered", r#"{"webhook_id":"wh_b","url":"https://example.com/hook","event_kinds":[]}"#),
    ];
    let restored = restore_webhook_configs(&events);
    assert_eq!(restored.len(), 1);
    assert_eq!(restored[0].webhook_id, "wh_b");
    assert_eq!(restored[0].registered_seq, 3);
}

#[test]
fn hmac_signature_is_deterministic() {
    let first = sign_webhook(b"01234567890123456789012345678901", b"payload");
    let second = sign_webhook(b"01234567890123456789012345678901", b"payload");
    assert_eq!(first, second);
    assert!(first.starts_with("v1="));
    assert_eq!(first.len(), 3 + 64);
    assert_ne!(first, sign_webhook(b"01234567890123456789012345678901", b"other"));
}

#[test]
fn signatures_are_those_of_the_standard() {
    assert_eq!(
        sign_webhook(b"key", b"The quick brown fox jumps over the lazy dog"),
        "v1=f7bc83f430538424b13298e6aa6fb143ef4d59a14946175997479dbc2d1a3cd8"
    );
    assert_eq!(signature_text(&[0x0a, 0xff]), "v1=0aff");
}

#[test]
fn retry_records_do_not_advance_the_durable_cursor() {
    let mut records = vec![DeliveryRecord {
        webhook_id: "wh_a".into(),
        seq: 9,
        state: "retry".into(),
        error: Some("temporary".into()),
    }];
    let states = load_delivery_state(&records);
    assert_eq!(states.get("wh_a").unwrap().last_terminal_seq, 0);

    records.push(DeliveryRecord {
        webhook_id: "wh_a".into(),
        seq: 9,
        state: "delivered".into(),
        error: None,
    });
    let states = load_delivery_state(&records);
    assert_eq!(states.get("wh_a").unwrap().last_terminal_seq, 9);
    assert_eq!(states.get("wh_a").unwrap().delivered, 1);
}

#[test]
fn sse_replay_is_strictly_after_cursor_and_filtered_by_run() {
    let all = vec![
        event(1, "run-a", "run_created", r#"{"principal_key":"public"}"#),
        event(2, "run-b", "other", "{}"),
        event(3, "run-a", "gate", r#"{"value":1}"#),
        event(4, "run-a", "vlm", r#"{"value":2}"#),
    ];
    let batch: Vec<TimelineEvent> = all.iter().filter(|e| e.seq > 1).map(|e| e.copy()).collect();
    let replayed = replay_to_sse(1, &batch, "run-a", None);
    assert!(!replayed.again);
    assert_eq!(replayed.cursor, 4);
    let sent: Vec<u64> = replayed.send.iter().map(|i| batch[*i].seq).collect();
    assert_eq!(sent, vec![3, 4]);
}

#[test]
fn full_batches_are_followed_by_another() {
    let batch: Vec<TimelineEvent> =
        (1..=REPLAY_BATCH as u64).map(|seq| event(seq, "run-a", "gate", "{}")).collect();
    let replayed = replay_to_sse(0, &batch, "run-a", Some("gate"));
    assert!(replayed.again);
    assert_eq!(replayed.cursor, REPLAY_BATCH as u64);
    assert_eq!(replayed.send.len(), REPLAY_BATCH);
    assert_eq!(on_notification(5, &event(5, "run-a", "gate", "{}"), "run-a", None), (false, 5));
    assert_eq!(on_notification(5, &event(6, "run-a", "gate", "{}"), "run-a", None), (true, 6));
    assert_eq!(on_notification(5, &event(6, "run-b", "gate", "{}"), "run-a", None), (false, 6));
    let mut metrics = DeliveryMetrics::new();
    note_sent(&mut metrics, true, true);
    assert_eq!((metrics.sse_events, metrics.sse_replayed, metrics.sse_output_stalls), (1, 1, 1));
}

#[test]
fn router_exposes_sse_and_rejects_invalid_last_event_id() {
    let query = EventStreamQuery { after: Some(1), kind: None };
    assert_eq!(
        stream_events("req-1", RUN, &owned(), "public", &query, &LastEventId::Missing).ok(),
        Some(1)
    );
    let none = EventStreamQuery { after: None, kind: None };
    let status = |id: LastEventId| {
        stream_events("req-1", RUN, &owned(), "public", &none, &id).err().map(|r| r.status)
    };
    assert_eq!(status(LastEventId::Text("not-a-sequence".to_string())), Some(422));
    assert_eq!(status(LastEventId::Unreadable), Some(422));
    assert_eq!(status(LastEventId::Text("7".to_string())), None);
    let header = LastEventId::Text("7".to_string());
    assert_eq!(stream_events("req-1", RUN, &owned(), "public", &query, &header).ok(), Some(7));
    let long = EventStreamQuery { after: None, kind: Some("x".repeat(MAX_FILTER_LEN + 1)) };
    assert_eq!(
        stream_events("req-1", RUN, &owned(), "public", &long, &header).err().map(|r| r.status),
        Some(422)
    );
    assert_eq!(
        stream_events("req-1", RUN, &owned(), "someone", &none, &header).err().map(|r| r.status),
        Some(404)
    );
    assert_eq!(
        stream_events("req-1", "bad", &owned(), "public", &none, &header).err().map(|r| r.status),
        Some(400)
    );
}

#[test]
fn webhook_route_rejects_private_targets_before_configuration() {
    let refused = create_webhook(
        "req-1",
        "run-0000000000000002",
        "wh_a",
        "https://127.0.0.1/hook",
        Some("webhook URL must not target a private address".to_string()),
        &vec![],
    );
    assert_eq!(refused.err().map(|r| r.status), Some(422));
    assert!(check_webhook_run("req-1", RUN, &owned(), "public").is_none());
    assert_eq!(check_webhook_run("req-1", RUN, &owned(), "x").map(|r| r.status), Some(404));
    assert_eq!(check_webhook_run("req-1", "bad", &owned(), "public").map(|r| r.status), Some(400));
}

#[test]
fn webhook_urls_are_short_and_readable() {
    assert_eq!(validate_webhook_url("https://example.com/hook"), None);
    assert_eq!(
        validate_webhook_url("https://").as_deref(),
        Some("invalid webhook URL: empty host")
    );
    let long = format!("https://example.com/{}", "x".repeat(2048));
    assert_eq!(validate_webhook_url(&long).as_deref(), Some("webhook URL exceeds 2048 bytes"));
    assert!(judge_webhook_url("https://example.com/hook", Some("broken".to_string())).is_some());
}

#[test]
fn webhooks_are_registered_listed_and_removed() {
    assert!(!webhooks_enabled(&Some("short".to_string())));
    assert!(webhooks_enabled(&Some("0".repeat(32))));
    let config = create_webhook("req-1", RUN, "wh_a", "https://example.com/hook", None, &vec!["vlm".to_string()])
        .ok()
        .expect("webhook");
    let append = register_webhook(&config);
    assert_eq!(append.kind, "webhook_registered");
    assert_eq!(append.payload.text_at("webhook_id"), Some("wh_a"));

    let mut registry = HookRegistry::new();
    assert!(registry.reserve(config.copy(), false, true).is_err());
    assert!(registry.reserve(config.copy(), true, false).is_err());
    assert!(registry.reserve(config.copy(), true, true).is_ok());
    assert!(registry.hooks_to_wake(Some(RUN)).is_empty());
    assert!(registry.activate("wh_a", 5).is_ok());
    assert!(registry.activate("wh_b", 5).is_err());
    assert_eq!(registry.hooks_to_wake(Some(RUN)), ["wh_a"]);
    assert_eq!(registry.hooks_to_wake(None), ["wh_a"]);
    assert!(registry.hooks_to_wake(Some("run-other")).is_empty());

    let mut statuses: TextMap<WorkerStatus> = TextMap::new();
    let mut status = WorkerStatus::fresh();
    status.delivered = 3;
    statuses.insert("wh_a".to_string(), status);
    let rows = registry.list(RUN, &statuses);
    assert_eq!(rows.len(), 1);
    assert_eq!(rows[0].registered_seq, 5);
    assert_eq!(rows[0].delivered, 3);
    assert_eq!(list_webhooks("req-1", RUN, &rows).status, 200);
    let gone = delete_webhook("req-1", &rows, "wh_a").ok().expect("known webhook");
    assert_eq!(gone.kind, "webhook_deleted");
    assert_eq!(delete_webhook("req-1", &rows, "wh_x").err().map(|r| r.status), Some(404));
    assert_eq!(created_webhook("req-1", &config, 5).status, 201);
    assert_eq!(deleted_webhook("req-1", RUN, "wh_a").status, 200);
    assert_eq!(webhooks_unavailable("req-1", "no secret").status, 503);
    assert!(registry.remove("wh_a"));
    assert!(!registry.remove("wh_a"));
    assert_eq!(registry.len(), 0);
}

#[test]
fn registries_hold_a_bounded_number_of_webhooks() {
    let configs: Vec<WebhookConfig> =
        (0..MAX_WEBHOOKS).map(|i| hook(&format!("wh_{i}"), RUN, &[])).collect();
    let mut registry = HookRegistry::restore(&configs);
    assert_eq!(registry.len(), MAX_WEBHOOKS);
    assert!(registry.reserve(hook("wh_more", RUN, &[]), true, true).is_err());
}

#[test]
fn webhook_names_are_random() {
    assert_eq!(webhook_id_from_bytes(&[1, 2, 255]), "wh_0102ff");
    let a = random_webhook_id().expect("random source");
    let b = random_webhook_id().expect("random source");
    assert_eq!(a.len(), 3 + 24);
    assert_ne!(a, b);
}

#[test]
fn webhooks_take_what_they_asked_for() {
    let config = hook("wh_a", RUN, &["vlm"]);
    assert!(webhook_matches(&config, &event(2, RUN, "vlm", "{}")));
    assert!(!webhook_matches(&config, &event(2, RUN, "gate", "{}")));
    let all = hook("wh_b", RUN, &[]);
    assert!(webhook_matches(&all, &event(2, RUN, "gate", "{}")));
    assert!(!webhook_matches(&all, &event(2, RUN, "webhook_delivered", "{}")));
    let batch = vec![
        event(2, RUN, "gate", "{}"),
        event(3, "run-b", "vlm", "{}"),
        event(4, RUN, "vlm", "{}"),
    ];
    assert_eq!(next_delivery(&config, &batch, 0), Some(2));
    assert_eq!(next_delivery(&config, &batch, 3), None);
}

#[test]
fn deliveries_are_retried_a_bounded_number_of_times() {
    let mut metrics = DeliveryMetrics::new();
    let mut attempt = DeliveryAttempt::new(10);
    for _ in 0..MAX_DELIVERY_ATTEMPTS {
        assert!(matches!(attempt.state, AttemptState::Open));
        attempt.note(Err("down".to_string()), &mut metrics);
    }
    assert!(matches!(attempt.state, AttemptState::Dead));
    assert_eq!(attempt.last_error.as_deref(), Some("down"));
    let config = hook("wh_a", RUN, &[]);
    let record = delivery_record(&config, 9, &attempt);
    assert_eq!(record.state, "dead_letter");
    assert_eq!(record.seq, 9);

    let mut status = WorkerStatus::fresh();
    settle_delivery(&mut status, 9, &attempt, &mut metrics);
    assert_eq!((status.last_terminal_seq, status.dead_letters, status.delivered), (9, 1, 0));
    assert_eq!(metrics.webhook_dead_letters, 1);

    let mut fine = DeliveryAttempt::new(10);
    fine.note(Ok(()), &mut metrics);
    assert!(matches!(fine.state, AttemptState::Delivered));
    assert_eq!(delivery_record(&config, 10, &fine).state, "delivered");
    settle_delivery(&mut status, 10, &fine, &mut metrics);
    assert_eq!((status.last_terminal_seq, status.delivered), (10, 1));
    settle_checkpoint(&mut status, 12);
    assert_eq!(status.last_terminal_seq, 12);
    settle_failure(&mut status, "disk full");
    assert_eq!(status.last_error.as_deref(), Some("disk full"));

    assert!(matches!(DeliveryAttempt::new(MAX_WEBHOOK_BODY_BYTES + 1).state, AttemptState::Dead));
    assert_eq!(retry_delay(1), 100);
    assert_eq!(retry_delay(2), 500);
}

#[test]
fn workers_go_on_after_the_last_record() {
    let config = hook("wh_a", RUN, &[]);
    let states = load_delivery_state(&vec![
        checkpoint_record(&config, 20),
        DeliveryRecord { webhook_id: "wh_a".into(), seq: 7, state: "delivered".into(), error: None },
    ]);
    assert_eq!(replay_cursor(states.get("wh_a").unwrap(), &config), 20);
    assert_eq!(replay_cursor(&WorkerStatus::fresh(), &config), 1);
}

#[test]
fn answers_other_than_success_are_told() {
    assert!(judge_response(204).is_ok());
    assert!(judge_response(302).is_err());
    let err = judge_response(503).err().expect("a refusal");
    assert!(err.contains("503 Service Unavailable"), "{err}");
    assert_eq!(truncate_error(&"é".repeat(300)), "é".repeat(256));
    assert_eq!(delivery_log_path_for(Some("events.wal")), "events.wal.webhook-delivery.wal");
    assert_eq!(delivery_log_path_for(Some("timeline.wal")), WEBHOOK_DELIVERY_LOG);
    assert_eq!(delivery_log_path_for(None), "timeline.wal.webhook-delivery.wal");
}

#[test]
fn delivery_metrics_are_rendered() {
    let mut metrics = DeliveryMetrics::new();
    metrics.webhook_attempts = 4;
    let text = metrics.render_prometheus();
    assert!(text.lines().any(|line| line.starts_with("vidarax_") && line.ends_with(" 4")), "{text}");
}

#[test]
fn workers_deliver_record_and_go_on() {
    let mut metrics = DeliveryMetrics::new();
    let mut worker = HookWorker::new(hook("wh_a", RUN, &["vlm"]), WorkerStatus::fresh());
    assert!(matches!(worker.replay_hook(WorkerEvent::Wake, &mut metrics), WorkerAction::Read(1)));
    let batch = vec![event(2, RUN, "gate", "{}"), event(3, RUN, "vlm", "{}"), event(4, RUN, "gate", "{}")];
    assert!(matches!(
        worker.replay_hook(WorkerEvent::Batch(batch), &mut metrics),
        WorkerAction::Prepare(1)
    ));
    assert!(matches!(
        worker.replay_hook(WorkerEvent::Prepared(10), &mut metrics),
        WorkerAction::Send(1)
    ));
    let retry = match worker.replay_hook(WorkerEvent::Sent(Err("down".to_string())), &mut metrics) {
        WorkerAction::Record(record) => record,
        other => panic!("{other:?}"),
    };
    assert_eq!((retry.state.as_str(), retry.seq), ("retry", 3));
    assert!(matches!(
        worker.replay_hook(WorkerEvent::Recorded(Ok(())), &mut metrics),
        WorkerAction::Pause(100)
    ));
    assert!(matches!(worker.replay_hook(WorkerEvent::Paused, &mut metrics), WorkerAction::Send(1)));
    let done = match worker.replay_hook(WorkerEvent::Sent(Ok(())), &mut metrics) {
        WorkerAction::Record(record) => record,
        other => panic!("{other:?}"),
    };
    assert_eq!(done.state, "delivered");
    assert_eq!(worker.status.last_terminal_seq, 0);
    let checkpoint = match worker.replay_hook(WorkerEvent::Recorded(Ok(())), &mut metrics) {
        WorkerAction::Record(record) => record,
        other => panic!("{other:?}"),
    };
    assert_eq!((checkpoint.state.as_str(), checkpoint.seq), ("checkpoint", 4));
    assert_eq!((worker.status.last_terminal_seq, worker.status.delivered), (3, 1));
    assert!(matches!(worker.replay_hook(WorkerEvent::Recorded(Ok(())), &mut metrics), WorkerAction::Rest));
    assert_eq!(worker.status.last_terminal_seq, 4);
    assert_eq!((metrics.webhook_attempts, metrics.webhook_retries, metrics.webhook_delivered), (2, 1, 1));
    assert!(matches!(worker.replay_hook(WorkerEvent::Paused, &mut metrics), WorkerAction::Wait));
}

#[test]
fn workers_that_fail_take_the_event_up_again() {
    let mut metrics = DeliveryMetrics::new();
    let mut worker = HookWorker::new(hook("wh_a", RUN, &[]), WorkerStatus::fresh());
    worker.replay_hook(WorkerEvent::Wake, &mut metrics);
    assert!(matches!(
        worker.replay_hook(WorkerEvent::ReadFailed("no log".to_string()), &mut metrics),
        WorkerAction::RestBriefly
    ));
    assert_eq!(worker.status.last_error.as_deref(), Some("webhook WAL replay failed: no log"));
    assert_eq!(worker.stage, WorkerStage::Resting);
    worker.replay_hook(WorkerEvent::Wake, &mut metrics);
    worker.replay_hook(WorkerEvent::Batch(vec![event(2, RUN, "gate", "{}")]), &mut metrics);
    assert!(matches!(
        worker.replay_hook(WorkerEvent::Prepared(MAX_WEBHOOK_BODY_BYTES + 1), &mut metrics),
        WorkerAction::Record(_)
    ));
    assert!(matches!(
        worker.replay_hook(WorkerEvent::Recorded(Err("disk full".to_string())), &mut metrics),
        WorkerAction::RestBriefly
    ));
    assert_eq!(worker.status.dead_letters, 0);
    assert!(matches!(worker.replay_hook(WorkerEvent::Wake, &mut metrics), WorkerAction::Read(1)));
    assert!(matches!(worker.replay_hook(WorkerEvent::Batch(vec![]), &mut metrics), WorkerAction::Rest));
}
