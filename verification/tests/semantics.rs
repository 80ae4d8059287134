use vidarax_api::audio::{
    audio_moments, deduplicate_moments, ground_provider_moments, intervals_overlap,
    local_audio_overlay, local_audio_prompt_context, overlay_from_moments, AudioAnalysis,
    AudioObservation,
};
use vidarax_api::chunk_infer::{
    apply_audio, apply_feedback, apply_outcome, begin_chunk, begin_result, chunk_images,
    chunk_prompt, chunk_request, feedback_text, finish_local_audio_result,
    semantic_join_failure_result, AudioCall, AudioOutcome, ChunkStart, DecodedJpegFrame,
    FeedbackOutcome, InferenceAnswer, ProviderError, ProviderOutcome, CUSTOM_SCHEMA_MAX_TOKENS,
    DEFAULT_SEMANTIC_MAX_TOKENS,
};
use vidarax_api::chunk_infer::ExtractedClip;
use vidarax_api::chunk_result::{AudioFailureReason, ChunkSemanticResult, FeedbackAudioEvidence};
use vidarax_api::chunk_run::{
    counts_as_error, ChunkAction, ChunkEvent, ChunkRun, ChunkStage, ChunkTask, WavFacts,
};
use vidarax_api::chunks::{
    chunk_frame_positions, chunk_ranges, prepare_realtime_chunks, select_semantic_images,
    ChainState, ClipSpec, Dispatch, MediaResolution, SemanticMediaConfig, SemanticMediaMode,
};
use vidarax_api::ieee::Single;
use vidarax_api::json::{parse_json, Json};
use vidarax_api::models::TokenUsage;
use vidarax_api::overlay::{
    normalize_moment_kind, normalize_semantic_event, parse_semantic_overlay, SemanticMoment,
    SemanticOverlay, SemanticParseError,
};
use vidarax_api::semantic::{
    build_marker_lifecycle, segment_inputs, MarkerConfig, MarkerInput, RatedSegment,
};
use vidarax_api::semantic_dispatch::SemanticDispatch;
use vidarax_api::signals::FrameSignal;
use vidarax_api::text::truncate_context;

fn single(x: f32) -> Single {
    Single { bits: x.to_bits() }
}

fn number(s: Single) -> f32 {
    f32::from_bits(s.bits)
}

fn usage() -> TokenUsage {
    TokenUsage { prompt_tokens: 1, completion_tokens: 2, thinking_tokens: 3, total_tokens: 6 }
}

fn heard(start: u64, end: u64, kind: &str, label: &str, confidence: f32, text: Option<&str>) -> AudioObservation {
    AudioObservation {
        start_offset_ms: start,
        end_offset_ms: end,
        kind: kind.to_string(),
        label: label.to_string(),
        confidence: single(confidence),
        confidence_text: format!("{confidence:.3}"),
        model: "openai/whisper-large-v3-turbo".to_string(),
        transcript: text.map(|t| t.to_string()),
        language: Some("en".to_string()),
        emotion: None,
    }
}

fn analysis(observations: Vec<AudioObservation>, ms: u64) -> AudioAnalysis {
    AudioAnalysis { observations, audio_duration_ms: ms, report: Json::Null }
}

#[test]
fn semantic_context_truncation_is_utf8_safe() {
    let text = "a".repeat(199) + "étail";
    assert_eq!(truncate_context(&text, 200), "a".repeat(199) + "é");

    let longer = "é".repeat(201);
    let truncated = truncate_context(&longer, 200);
    assert_eq!(truncated.chars().count(), 200);
    assert!(longer.starts_with(&truncated));
}

#[test]
fn chunk_semantic_event_payload_includes_overlay_text() {
    let mut skipped = begin_result();
    skipped.attempted = false;
    assert!(skipped.event_payload(0, "req-1", "stream-1").is_none());

    let mut result = begin_result();
    result.overlay = Some(SemanticOverlay {
        event_type: "context_observation".to_string(),
        object_label: "frame_context".to_string(),
        summary: "person crosses the lobby".to_string(),
        description: "A person walks past the front desk carrying a bag.".to_string(),
        confidence: single(0.91),
    });
    result.attempted = true;
    result.finish_reason = Some("stop".to_string());
    result.response_chars = Some(128);

    let payload = result
        .event_payload(3, "req-1", "stream-1")
        .expect("attempted semantic result should emit payload");
    assert_eq!(payload.text_at("summary"), Some("person crosses the lobby"));
    assert_eq!(
        payload.text_at("description"),
        Some("A person walks past the front desk carrying a bag.")
    );
    assert_eq!(payload.text_at("finish_reason"), Some("stop"));
    assert_eq!(payload.unsigned_at("response_chars"), Some(128));
}

#[test]
fn semantic_overlay_parser_accepts_fenced_json_with_braces_in_strings() {
    let raw = r#"Result:
```json
{"event_type":"context_observation","object_label":"subject","summary":"turn {left}","description":"The subject oscillates before contact.","confidence":0.8}
```
Ignore this trailing {not json}."#;

    let (overlay, moments) =
        parse_semantic_overlay(raw, None).expect("fenced overlay should parse");
    assert_eq!(overlay.object_label, "subject");
    assert_eq!(overlay.summary, "turn {left}");
    assert_eq!(number(overlay.confidence), 0.8);
    assert!(moments.is_empty());
}

#[test]
fn multimodal_parser_keeps_audio_video_timestamps_on_the_source_timeline() {
    let raw = r#"{
          "moments":[
            {
              "start_offset_ms":1200,
              "end_offset_ms":2400,
              "modalities":["video","audio","audio"],
              "kind":"interaction",
              "description":"The button is clicked as its click sound plays.",
              "intent":"The speaker is trying to run the build.",
              "audio_visual_relation":"The click sound coincides with the visible press.",
              "confidence":0.91
            },
            {
              "start_offset_ms":9000,
              "end_offset_ms":9500,
              "modalities":["audio"],
              "kind":"error tone",
              "description":"An error sound plays.",
              "confidence":1.4
            }
          ]
        }"#;

    let (overlay, moments) =
        parse_semantic_overlay(raw, Some((20_000, 8_000))).expect("multimodal overlay");
    assert_eq!(overlay.summary, "The button is clicked as its click sound plays.");
    assert_eq!(moments.len(), 1);
    assert_eq!(moments[0].start_pts_ms, 21_200);
    assert_eq!(moments[0].end_pts_ms, 22_400);
    assert_eq!(moments[0].modalities, ["video", "audio"]);
    assert_eq!(
        moments[0].intent.as_deref(),
        Some("The speaker is trying to run the build.")
    );
}

#[test]
fn local_audio_filters_transport_activity_and_zero_duration() {
    let analysis = analysis(
        vec![
            heard(0, 500, "voice_activity", "speech", 0.9, None),
            heard(100, 100, "audio_event", "impact", 0.8, None),
            heard(200, 800, "speech", "transcript", 0.95, Some("Fuel empty.")),
        ],
        1_000,
    );
    let moments = audio_moments(&analysis, 5_000, 6_000);
    assert_eq!(moments.len(), 1);
    assert_eq!(moments[0].kind, "speech");
    assert_eq!(moments[0].description, "Speaker: Fuel empty.");
    assert_eq!(moments[0].start_pts_ms, 5_200);
    assert_eq!(moments[0].end_pts_ms, 5_800);
}

#[test]
fn local_transcript_replaces_provider_speech_wording() {
    let analysis = analysis(
        vec![heard(
            900,
            3_800,
            "speech",
            "transcript",
            0.95,
            Some("Fuel empty. Alright, now I'm drifting."),
        )],
        4_000,
    );
    let provider = SemanticMoment {
        start_offset_ms: 1_000,
        end_offset_ms: 3_000,
        start_pts_ms: 1_000,
        end_pts_ms: 3_000,
        modalities: vec!["audio".to_string()],
        kind: "speech".to_string(),
        description: "A character says the water is running low.".to_string(),
        intent: Some("Discussing the UI".to_string()),
        audio_visual_relation: None,
        confidence: single(0.9),
    };

    let grounded = ground_provider_moments(vec![provider], Some(&analysis));
    assert_eq!(grounded.len(), 1);
    assert_eq!(
        grounded[0].description,
        "Speaker: Fuel empty. Alright, now I'm drifting."
    );
    assert_eq!(
        grounded[0].intent.as_deref(),
        Some("Fuel empty. Alright, now I'm drifting.")
    );

    let mut combined = audio_moments(&analysis, 0, 4_000);
    let first = &grounded[0];
    combined.push(SemanticMoment {
        start_offset_ms: first.start_offset_ms,
        end_offset_ms: first.end_offset_ms,
        start_pts_ms: first.start_pts_ms,
        end_pts_ms: first.end_pts_ms,
        modalities: vec!["audio".to_string(), "video".to_string()],
        kind: first.kind.clone(),
        description: first.description.clone(),
        intent: first.intent.clone(),
        audio_visual_relation: None,
        confidence: first.confidence,
    });
    deduplicate_moments(&mut combined);
    assert_eq!(combined.len(), 1);
    assert_eq!(combined[0].modalities, ["audio", "video"]);
}

#[test]
fn semantic_overlay_parser_reports_actionable_failure_categories() {
    assert_eq!(
        parse_semantic_overlay("   ", None).unwrap_err(),
        SemanticParseError::EmptyResponse
    );
    assert_eq!(
        parse_semantic_overlay("plain prose only", None).unwrap_err(),
        SemanticParseError::JsonObjectNotFound
    );
    assert_eq!(
        parse_semantic_overlay("prefix {not-json} suffix", None).unwrap_err(),
        SemanticParseError::InvalidJson
    );
    assert_eq!(
        parse_semantic_overlay("{\"summary\": \"truncated\"", None).unwrap_err(),
        SemanticParseError::JsonObjectNotFound
    );
    assert_eq!(
        parse_semantic_overlay("{}", None).unwrap_err(),
        SemanticParseError::SchemaMismatch
    );
    assert_eq!(
        parse_semantic_overlay(
            r#"{"event_type":"event","object_label":"object","summary":"summary","description":"description","confidence":2}"#,
            None
        )
        .unwrap_err(),
        SemanticParseError::SchemaMismatch
    );
}

#[test]
fn semantic_overlay_parser_skips_invalid_balanced_braces_before_valid_json() {
    let raw = r#"The set {left, right} resolves to {"event_type":"scene_cut","object_label":"subject","summary":"left turn","description":"The subject turns left.","confidence":0.8}."#;
    let (overlay, _) = parse_semantic_overlay(raw, None).expect("later valid object should parse");
    assert_eq!(overlay.event_type, "scene_cut");
    assert_eq!(number(overlay.confidence), 0.8);
}

fn answer(text: &str) -> InferenceAnswer {
    InferenceAnswer {
        provider: "vllm".to_string(),
        model: "test-model".to_string(),
        fallback_used: false,
        output_text: text.to_string(),
        finish_reason: Some("stop".to_string()),
        usage: usage(),
        inference_latency_ms: 1,
    }
}

#[test]
fn custom_output_schema_preserves_raw_output_and_larger_token_cap() {
    let request = chunk_request(Some(r#"{"type":"object"}"#), false, 1_000, 0);
    assert_eq!(request.guided_json, r#"{"type":"object"}"#);
    assert_eq!(request.max_tokens, CUSTOM_SCHEMA_MAX_TOKENS);

    let mut result = begin_result();
    apply_outcome(&mut result, ProviderOutcome::Answered(answer(r#"{"custom":"ok"}"#)), true);
    let raw = result.raw_output.as_ref().expect("raw output is kept");
    assert_eq!(raw.text_at("custom"), Some("ok"));
    assert_eq!(raw.fields().map(|f| f.len()), Some(1));
    assert_eq!(result.raw_text.as_deref(), Some(r#"{"custom":"ok"}"#));
    assert!(result.overlay.is_none());
    assert_eq!(result.error, None);
}

#[test]
fn parallel_semantic_dispatch_bounds_live_spawned_tasks() {
    let mut dispatch = Dispatch::new(100, 4);
    let mut live: Vec<usize> = Vec::new();
    let mut max_live = 0usize;
    let mut done = 0usize;
    while done < 100 {
        while let Some(item) = dispatch.start() {
            live.push(item);
            max_live = max_live.max(live.len());
        }
        let item = live.remove(0);
        assert!(dispatch.finish(item));
        done += 1;
    }
    assert!(dispatch.is_idle());
    assert_eq!(max_live, 4);
}

#[test]
fn parallel_semantic_dispatch_continues_after_task_panic() {
    let mut dispatch = Dispatch::new(5, 2);
    let mut results: Vec<Option<ChunkSemanticResult>> = (0..5).map(|_| None).collect();
    let mut live: Vec<usize> = Vec::new();
    let mut completed: Vec<usize> = Vec::new();
    loop {
        while let Some(item) = dispatch.start() {
            live.push(item);
        }
        if live.is_empty() {
            break;
        }
        let item = live.remove(0);
        let result = if item == 1 {
            semantic_join_failure_result("task 7 panicked")
        } else {
            let mut result = begin_result();
            apply_outcome(
                &mut result,
                ProviderOutcome::Answered(answer(
                    r#"{"event_type":"context_observation","object_label":"subject","summary":"ok","description":"ok","confidence":0.8}"#,
                )),
                false,
            );
            result
        };
        results[item] = Some(result);
        assert!(dispatch.finish(item));
        completed.push(item);
    }
    completed.sort_unstable();
    assert_eq!(completed, vec![0, 1, 2, 3, 4]);
    for idx in [0usize, 2, 3, 4] {
        let result = results[idx].as_ref().expect("chunk should complete");
        assert!(result.attempted);
        assert_eq!(result.error, None);
        assert_eq!(result.overlay.as_ref().map(|o| o.summary.as_str()), Some("ok"));
    }
    let failed = results[1].as_ref().expect("panic should be surfaced");
    assert!(failed.attempted);
    assert!(failed.used_fallback);
    assert!(failed
        .error
        .as_deref()
        .is_some_and(|err| err.starts_with("join_error:") && err.contains("panicked")));
}

fn rated(inputs: &Vec<MarkerInput>) -> Vec<RatedSegment> {
    let segments = segment_inputs(inputs);
    let means: Vec<f32> = segments
        .iter()
        .map(|s| {
            let part = &inputs[s.first..s.first + s.count];
            let sum: f32 = part.iter().map(|input| number(input.confidence)).sum();
            (sum / s.count as f32).clamp(0.0, 1.0)
        })
        .collect();
    segments
        .into_iter()
        .enumerate()
        .map(|(i, segment)| RatedSegment {
            confidence: single(means[i]),
            confidence_with_next: single(match means.get(i + 1) {
                Some(next) => ((means[i] + next) / 2.0).clamp(0.0, 1.0),
                None => means[i],
            }),
            segment,
        })
        .collect()
}

#[test]
fn emits_provisional_and_finalized_pairs() {
    let inputs: Vec<MarkerInput> = [(1u64, 33u64, 0.3f32), (2, 66, 0.4), (4, 132, 0.5)]
        .iter()
        .map(|(frame, pts, confidence)| MarkerInput {
            frame_index: *frame,
            pts_ms: *pts,
            event_type: "context_observation".to_string(),
            confidence: single(*confidence),
        })
        .collect();
    let markers = build_marker_lifecycle(
        "run-1",
        "stream-0",
        &rated(&inputs),
        &MarkerConfig {
            correction_window_frames: 12,
            provisional_confidence_threshold: single(0.55),
        },
    );
    assert!(markers.iter().any(|m| m.status == "provisional"));
    assert!(markers.iter().any(|m| m.status == "finalized"));
}

#[test]
fn segments_take_up_each_input_once() {
    let inputs: Vec<MarkerInput> = [(0u64, "a"), (1, "a"), (2, "b"), (9, "b")]
        .iter()
        .map(|(frame, kind)| MarkerInput {
            frame_index: *frame,
            pts_ms: frame * 33,
            event_type: kind.to_string(),
            confidence: single(0.5),
        })
        .collect();
    let segments = segment_inputs(&inputs);
    assert_eq!(segments.len(), 3);
    assert_eq!((segments[0].start_frame, segments[0].end_frame), (0, 1));
    assert_eq!((segments[1].start_frame, segments[1].end_frame), (2, 2));
    assert_eq!((segments[2].start_frame, segments[2].end_frame), (9, 9));
    assert_eq!(segments.iter().map(|s| s.count).sum::<usize>(), 4);
}

fn signal(frame_index: u64, pts_ms: u64) -> FrameSignal {
    FrameSignal {
        frame_index,
        pts_ms,
        perceptual_hash: 1,
        luma_mean: single(0.5),
        flicker_score: single(0.0),
        ghosting_score: single(0.0),
        noise_variance_score: single(0.0),
    }
}

#[test]
fn chunks_cover_the_frames_by_count_and_by_time() {
    let signals: Vec<FrameSignal> = (0..5).map(|i| signal(i, i * 100)).collect();
    let by_count = chunk_ranges(&signals, 2, 0, false);
    let pairs: Vec<(usize, usize)> = by_count.iter().map(|r| (r.start, r.end)).collect();
    assert_eq!(pairs, vec![(0, 2), (2, 4), (4, 5)]);
    let by_time = chunk_ranges(&signals, 2, 250, true);
    assert_eq!(by_time.first().map(|r| r.start), Some(0));
    assert_eq!(by_time.last().map(|r| r.end), Some(5));
    for pair in by_time.windows(2) {
        assert_eq!(pair[0].end, pair[1].start);
    }
    let preps = prepare_realtime_chunks(
        &signals,
        2,
        SemanticMediaConfig {
            mode: SemanticMediaMode::Frames,
            window_ms: 0,
            resolution: MediaResolution { code: 0 },
            persist_evidence: false,
            timestamp_windows: false,
        },
        None,
        true,
    );
    assert_eq!(preps.len(), 3);
    assert_eq!(preps[1].frame_offset, 2);
    assert_eq!(preps[1].pts_start_ms, 200);
    assert!(preps[0].clip_spec.is_none());
}

#[test]
fn chosen_frames_are_distinct_and_spread() {
    assert_eq!(select_semantic_images(0, 3), Vec::<usize>::new());
    assert_eq!(select_semantic_images(2, 3), vec![0, 1]);
    let picked = select_semantic_images(10, 3);
    assert_eq!(picked.len(), 3);
    assert_eq!(picked[0], 0);
    for pair in picked.windows(2) {
        assert!(pair[0] < pair[1]);
    }
    assert_eq!(chunk_frame_positions(&vec![0, 2, 5, 7], 2, 6), vec![1, 2]);
}

#[test]
fn chained_prompts_tell_what_came_before() {
    let mut chain = ChainState::new();
    assert_eq!(chain.prompt("classify"), "classify");
    chain.observe(None, Some("a car stops"), 2_000);
    let prompt = chain.prompt("classify");
    assert!(prompt.contains("a car stops"));
    assert!(prompt.contains("classify"));
}

#[test]
fn chunks_without_frames_or_provider_are_not_tried() {
    match begin_chunk(false, false, 3, 1) {
        ChunkStart::Finished(result) => assert!(!result.attempted),
        _ => panic!("a chunk without a provider is finished at once"),
    }
    match begin_chunk(true, false, 3, 1) {
        ChunkStart::Frames(picked) => assert_eq!(picked.len(), 1),
        _ => panic!("frames are picked"),
    }
    assert!(matches!(begin_chunk(true, true, 3, 1), ChunkStart::Clip));
}

#[test]
fn images_are_base64() {
    let frames = vec![DecodedJpegFrame { frame_index: 0, jpeg_bytes: vec![0xff, 0xd8, 0xff, 0xd9] }];
    let images = chunk_images(&frames, &vec![0], Some(&vec![1, 2]));
    assert_eq!(images.len(), 2);
    assert_eq!(images[0].data_base64, "AQI=");
    assert_eq!(images[1].data_base64, "/9j/2Q==");
    assert_eq!(images[1].media_type, "image/jpeg");
}

#[test]
fn provider_failures_mark_the_result() {
    for (outcome, error) in [
        (ProviderOutcome::Failed(ProviderError::HttpStatus(503)), "http_status_503"),
        (ProviderOutcome::Broke("lost".to_string()), "join_error:lost"),
    ] {
        let mut result = begin_result();
        apply_outcome(&mut result, outcome, false);
        assert!(result.used_fallback);
        assert!(result.overlay.is_none());
        assert_eq!(result.error.as_deref(), Some(error));
    }
    let mut unreadable = begin_result();
    apply_outcome(&mut unreadable, ProviderOutcome::Answered(answer("no json here")), false);
    assert!(unreadable.used_fallback);
    assert_eq!(unreadable.usage.total_tokens, 6);
    assert_eq!(chunk_request(None, false, 1_000, 0).max_tokens, DEFAULT_SEMANTIC_MAX_TOKENS);
}

#[test]
fn heard_sound_reaches_the_prompt_and_the_overlay() {
    let heard_all = analysis(
        vec![heard(0, 900, "speech", "transcript", 0.9, Some("Stop here."))],
        1_000,
    );
    let context = local_audio_prompt_context(&heard_all);
    assert!(context.contains("Stop here."));
    assert!(context.contains("0.900"));
    let prompt = chunk_prompt("classify", Some(SemanticMediaMode::AudioVideo), Some(&heard_all), 3, 4, 100, 200);
    assert!(prompt.contains("Stop here."));
    let moments = audio_moments(&heard_all, 0, 1_000);
    let overlay = overlay_from_moments(&moments).expect("a moment makes an overlay");
    assert_eq!(overlay.description, "Speaker: Stop here.");
    assert_eq!(local_audio_overlay(&moments).description, "Speaker: Stop here.");
    assert_eq!(overlay_from_moments(&Vec::new()).is_none(), true);

    let mut result = begin_result();
    apply_audio(
        &mut result,
        AudioCall { wav_extraction_ms: 1, wav_bytes: 2, requested_duration_ms: 3, round_trip_ms: 4 },
        AudioOutcome::Heard(heard_all),
        0,
        1_000,
    );
    assert_eq!(result.local_audio_telemetry.round_trip_ms, 4);
    finish_local_audio_result(&mut result);
    assert_eq!(
        result.overlay.as_ref().map(|o| o.description.as_str()),
        Some("Speaker: Stop here.")
    );
    assert_eq!(feedback_text(&result, true).as_deref(), Some("Speaker: Stop here."));
    assert_eq!(feedback_text(&result, false), None);
    apply_feedback(
        &mut result,
        9,
        FeedbackOutcome::Refused(AudioFailureReason::Reported, "busy".to_string()),
    );
    assert!(result.local_audio_telemetry.tts_attempted);
    assert_eq!(result.local_audio_telemetry.tts_round_trip_ms, 9);
    assert_eq!(result.local_audio_error.as_deref(), Some("voice_feedback_failed:busy"));
    let spoken = FeedbackAudioEvidence {
        bytes: vec![1, 2],
        media_type: "audio/wav",
        model: "voice".to_string(),
        sample_rate_hz: 24_000,
        processing_ms: 7,
        capacity: parse_json(r#"{"slots":3}"#).unwrap(),
    };
    apply_feedback(&mut result, 9, FeedbackOutcome::Spoken(spoken));
    let kept = result.feedback_audio.as_ref().expect("spoken feedback");
    assert_eq!((kept.bytes.len(), kept.capacity.unsigned_at("slots")), (2, Some(3)));
}

#[test]
fn claims_about_sound_need_something_heard() {
    let claim = SemanticMoment {
        start_offset_ms: 0,
        end_offset_ms: 1_000,
        start_pts_ms: 0,
        end_pts_ms: 1_000,
        modalities: vec!["audio".to_string()],
        kind: "speech".to_string(),
        description: "Someone speaks.".to_string(),
        intent: None,
        audio_visual_relation: None,
        confidence: single(0.9),
    };
    assert!(ground_provider_moments(vec![claim], Some(&analysis(Vec::new(), 1_000))).is_empty());
    assert!(intervals_overlap(0, 10, 12, 20, 2));
    assert!(!intervals_overlap(0, 10, 13, 20, 2));
    assert_eq!(normalize_moment_kind("error tone"), "sound_effect");
    assert_eq!(normalize_semantic_event(" Scene_Cut "), "scene_cut");
}

fn task(frames: usize, clip: bool, provider: bool) -> ChunkTask {
    ChunkTask {
        semantic_available: true,
        has_provider: provider,
        first_pass_model: "test-model".to_string(),
        semantic_prompt: "classify".to_string(),
        timeout_ms: 1_000,
        frames_per_chunk: 1,
        frames: (0..frames)
            .map(|i| DecodedJpegFrame { frame_index: i as u64, jpeg_bytes: vec![i as u8] })
            .collect(),
        frame_start_index: 10,
        pts_start_ms: 100,
        pts_end_ms: 900,
        custom_schema: None,
        prev_jpeg: None,
        clip_spec: if clip {
            Some(ClipSpec {
                source_start_ms: 100,
                duration_ms: 800,
                mode: SemanticMediaMode::AudioVideo,
                resolution: MediaResolution { code: 3 },
                persist_evidence: false,
                chunk_index: 0,
            })
        } else {
            None
        },
        local_audio: clip,
        voice_feedback: clip,
    }
}

const OVERLAY: &str = r#"{"event_type":"scene_cut","object_label":"car","summary":"a car","description":"a car stops","confidence":0.8}"#;

#[test]
fn frames_are_shown_to_a_model_and_its_answer_is_kept() {
    let task = task(3, false, true);
    let mut run = ChunkRun::new();
    let question = match run.infer_chunk_semantics(&task, ChunkEvent::Begin) {
        ChunkAction::Ask(question) => question,
        other => panic!("{other:?}"),
    };
    assert_eq!(question.model, "test-model");
    assert_eq!(question.images.len(), 1);
    assert_eq!(question.images[0].data_base64, "AQ==");
    assert_eq!(question.images[0].media_type, "image/jpeg");
    assert_eq!(question.media_resolution, None);
    assert!(question.prompt.contains("chunk_frame_start=10\nchunk_frame_end=12"));
    let answered = ChunkEvent::Asked(ProviderOutcome::Answered(answer(OVERLAY)));
    assert!(matches!(run.infer_chunk_semantics(&task, answered), ChunkAction::Finish));
    assert_eq!(run.stage, ChunkStage::Over);
    assert_eq!(run.result.overlay.as_ref().map(|o| o.event_type.as_str()), Some("scene_cut"));
    assert!(matches!(run.infer_chunk_semantics(&task, ChunkEvent::Begin), ChunkAction::Wait));
}

#[test]
fn clips_are_cut_heard_asked_about_and_spoken() {
    let task = task(0, true, false);
    let mut run = ChunkRun::new();
    assert!(matches!(run.infer_chunk_semantics(&task, ChunkEvent::Begin), ChunkAction::Extract));
    let clip = ExtractedClip {
        bytes: vec![1, 2, 3],
        audio_streams: 1,
        audio_channels: 2,
        audio_mixed: true,
        extraction_ms: 5,
    };
    let wav = Some(WavFacts { extraction_ms: 7, bytes: 44 });
    assert!(matches!(
        run.infer_chunk_semantics(&task, ChunkEvent::Extracted(clip, wav)),
        ChunkAction::Listen
    ));
    let heard_all = analysis(vec![heard(0, 500, "speech", "transcript", 0.9, Some("Stop."))], 800);
    let text = match run.infer_chunk_semantics(&task, ChunkEvent::Listened(3, AudioOutcome::Heard(heard_all))) {
        ChunkAction::Speak(text) => text,
        other => panic!("{other:?}"),
    };
    assert_eq!(text, "Speaker: Stop.");
    assert_eq!(run.result.local_audio_telemetry.wav_extraction_ms, 7);
    assert_eq!(run.result.local_audio_telemetry.requested_duration_ms, 800);
    assert_eq!(run.result.media.as_ref().map(|m| m.source_end_ms), Some(900));
    assert_eq!(run.result.media.as_ref().map(|m| m.resolution.code), Some(3));
    let spoke = ChunkEvent::Spoke(4, FeedbackOutcome::Broke("lost".to_string()));
    assert!(matches!(run.infer_chunk_semantics(&task, spoke), ChunkAction::Finish));
    assert_eq!(run.result.local_audio_error.as_deref(), Some("voice_feedback_join_error:lost"));
}

#[test]
fn clips_are_asked_about_at_their_resolution() {
    let task = task(0, true, true);
    let mut run = ChunkRun::new();
    run.infer_chunk_semantics(&task, ChunkEvent::Begin);
    let clip = ExtractedClip {
        bytes: vec![1, 2, 3],
        audio_streams: 0,
        audio_channels: 0,
        audio_mixed: false,
        extraction_ms: 5,
    };
    let question = match run.infer_chunk_semantics(&task, ChunkEvent::Extracted(clip, None)) {
        ChunkAction::Ask(question) => question,
        other => panic!("{other:?}"),
    };
    assert!(question.shows_clip && question.images.is_empty());
    assert_eq!(question.media_resolution.map(|r| r.code), Some(3));
}

#[test]
fn chunks_end_where_nothing_can_be_shown() {
    let mut run = ChunkRun::new();
    assert!(matches!(run.infer_chunk_semantics(&task(0, false, true), ChunkEvent::Begin), ChunkAction::Finish));
    assert_eq!(run.result.error.as_deref(), Some("chunk_has_no_jpeg_frames"));
    for (event, error) in [
        (ChunkEvent::ExtractionFailed("x".to_string()), "media_extraction_failed:x"),
        (ChunkEvent::ExtractionBroke("x".to_string()), "media_extraction_join_error:x"),
    ] {
        let task = task(0, true, true);
        let mut run = ChunkRun::new();
        run.infer_chunk_semantics(&task, ChunkEvent::Begin);
        assert!(matches!(run.infer_chunk_semantics(&task, event), ChunkAction::Finish));
        assert_eq!(run.result.error.as_deref(), Some(error));
    }
    assert!(counts_as_error(&ProviderOutcome::Broke("x".to_string())));
    assert!(!counts_as_error(&ProviderOutcome::NoPermit));
}

#[test]
fn chained_chunks_are_told_what_the_one_before_showed() {
    let mut dispatch = SemanticDispatch::new(2, true, true, true, 8);
    let first = dispatch.next_chunk("classify").expect("a chunk");
    assert_eq!((first.index, first.prompt.as_str(), first.prev_frame), (0, "classify", None));
    assert!(dispatch.next_chunk("classify").is_none());
    let mut result = begin_result();
    apply_outcome(&mut result, ProviderOutcome::Answered(answer(OVERLAY)), false);
    assert!(dispatch.chunk_done(0, 5, 900, result));
    let second = dispatch.next_chunk("classify").expect("a chunk");
    assert_eq!(second.prompt, "classify\n[previous_state (900ms): a car stops]");
    assert_eq!(second.prev_frame, Some((0, 2)));
    assert!(dispatch.task_broke(1, 1_800, "panicked"));
    assert!(!dispatch.task_broke(1, 1_800, "panicked"));
    assert!(dispatch.is_idle());
    let results = dispatch.into_results();
    assert_eq!(results.len(), 2);
    assert_eq!(results[1].as_ref().and_then(|r| r.error.as_deref()), Some("join_error:panicked"));
}

#[test]
fn unchained_chunks_go_side_by_side() {
    let mut dispatch = SemanticDispatch::new(5, true, false, false, 3);
    let mut taken = 0;
    while dispatch.next_chunk("classify").is_some() {
        taken += 1;
    }
    assert_eq!(taken, 3);
    let mut none = SemanticDispatch::new(5, false, false, false, 3);
    assert!(none.next_chunk("classify").is_none());
    assert_eq!(none.into_results().len(), 5);
}

#[test]
fn raw_answers_are_told_to_the_next_chunk_in_compact_form() {
    let told = |output: &str| {
        let mut dispatch = SemanticDispatch::new(2, true, true, false, 1);
        dispatch.next_chunk("classify").expect("a chunk");
        let mut result = begin_result();
        apply_outcome(&mut result, ProviderOutcome::Answered(answer(output)), true);
        assert!(dispatch.chunk_done(0, 0, 900, result));
        dispatch.next_chunk("classify").expect("a chunk").prompt
    };
    assert_eq!(told(" { \"a\" : 0.5 } "), "classify\n[previous_state (900ms): {\"a\":0.5}]");
    assert_eq!(told("say \"hi\""), "classify\n[previous_state (900ms): {\"raw\":\"say \\\"hi\\\"\"}]");
    assert_eq!(told("null"), "classify");
}
