use vidarax_api::audio::{AudioAnalysis, AudioObservation};
use vidarax_api::chunk_infer::AudioOutcome;
use vidarax_api::chunk_result::AudioFailureReason;
use vidarax_api::ieee::Single;
use vidarax_api::json::Json;
use vidarax_api::live_audio::{
    append_live_audio_events, build_ogg_opus, check_live_decode, opus_window_to_wav,
    process_window, window_stream, LiveAudioFrame, LiveDecode, LiveTracks, LiveWindowTrace,
    TrackAccumulator, OPUS_CLOCK_RATE,
};
use vidarax_api::ogg::{append_ogg_page, ogg_crc, push_le};

fn frame(timestamp: u32, data: &[u8]) -> LiveAudioFrame {
    LiveAudioFrame {
        track_id: 0,
        rtp_timestamp: timestamp,
        clock_rate: OPUS_CLOCK_RATE,
        sequence_number: Some(1),
        data: data.to_vec(),
    }
}

#[test]
fn ogg_opus_has_headers_and_terminal_page() {
    let frames = vec![frame(0, &[0xf8, 0xff, 0xfe])];
    let ogg = build_ogg_opus(&frames).unwrap();
    assert!(ogg.starts_with(b"OggS"));
    assert!(ogg.windows(8).any(|window| window == b"OpusHead"));
    assert!(ogg.windows(8).any(|window| window == b"OpusTags"));
    assert!(ogg.iter().filter(|byte| **byte == b'O').count() >= 3);
    assert_eq!(ogg.windows(4).filter(|window| *window == b"OggS").count(), 3);
    assert_eq!(window_stream(&frames).unwrap(), ogg);
    assert!(window_stream(&vec![]).is_err());
}

#[test]
fn accumulator_reports_relative_window_time() {
    let mut accumulator = TrackAccumulator::new(frame(48_000, &[1]));
    accumulator.push(frame(96_000, &[2]));
    assert_eq!(accumulator.duration_ms(), 1_000);
    let first = accumulator.take_window();
    assert_eq!(first.source_start_ms, 0);
    accumulator.push(frame(144_000, &[3]));
    assert_eq!(accumulator.source_start_ms(), 2_000);
}

#[test]
fn tracks_hand_out_windows_when_they_are_long_enough() {
    let mut tracks = LiveTracks::new();
    let mut numbered = frame(0, &[1]);
    numbered.sequence_number = Some(1);
    assert!(tracks.accept(numbered, 1_000).is_none());
    let mut second = frame(48_000, &[2]);
    second.sequence_number = Some(2);
    let window = tracks.accept(second, 1_000).expect("a second of sound");
    assert_eq!(window.frames.len(), 2);
    assert_eq!(window.source_start_ms, 0);
    let mut repeated = frame(96_000, &[3]);
    repeated.sequence_number = Some(2);
    assert!(tracks.accept(repeated, 1_000).is_none());
    assert!(tracks.finish().is_empty());
}

#[test]
fn pages_are_framed_and_checked() {
    let mut page = Vec::new();
    append_ogg_page(&mut page, b"hello", 960, 0x0102_0304, 7, 4).unwrap();
    assert_eq!(&page[0..6], b"OggS\x00\x04");
    assert_eq!(&page[6..14], &960u64.to_le_bytes());
    assert_eq!(&page[14..18], &0x0102_0304u32.to_le_bytes());
    assert_eq!(&page[18..22], &7u32.to_le_bytes());
    assert_eq!(page[26], 1);
    assert_eq!(page[27], 5);
    assert_eq!(&page[28..], b"hello");
    let mut blank = page.clone();
    for i in 22..26 {
        blank[i] = 0;
    }
    assert_eq!(&page[22..26], &ogg_crc(&blank).to_le_bytes());
    assert!(append_ogg_page(&mut Vec::new(), &vec![0u8; 255 * 255], 0, 0, 0, 0).is_err());
    let mut out = Vec::new();
    push_le(&mut out, 0x0102, 3);
    assert_eq!(out, vec![2, 1, 0]);
}

#[test]
fn checksums_follow_the_polynomial() {
    let mut crc = 0u32;
    for byte in b"OggS sample" {
        crc ^= (*byte as u32) << 24;
        for _ in 0..8 {
            crc = if crc & 0x8000_0000 != 0 { (crc << 1) ^ 0x04c1_1db7 } else { crc << 1 };
        }
    }
    assert_eq!(ogg_crc(b"OggS sample"), crc);
    assert_eq!(ogg_crc(b""), 0);
}

#[test]
fn what_was_heard_is_appended() {
    let analysis = AudioAnalysis {
        observations: vec![AudioObservation {
            start_offset_ms: 10,
            end_offset_ms: 500,
            kind: "speech".to_string(),
            label: "transcript".to_string(),
            confidence: Single { bits: 0.9f32.to_bits() },
            confidence_text: "0.900".to_string(),
            model: "m".to_string(),
            transcript: Some("Hello.".to_string()),
            language: None,
            emotion: None,
        }],
        audio_duration_ms: 600,
        report: Json::Null,
    };
    let trace = LiveWindowTrace {
        session_id: "sess".to_string(),
        track_id: 3,
        chunk_index: 2,
        source_start_ms: 1_000,
        frame_count: 30,
        decode_ms: 4,
        round_trip_ms: 5,
    };
    let appends = append_live_audio_events(&trace, &analysis);
    assert_eq!(appends.len(), 2);
    for append in &appends {
        assert_eq!(append.payload.text_at("session_id"), Some("sess"));
        assert_eq!(append.payload.unsigned_at("chunk_index"), Some(2));
    }
}

#[test]
fn windows_that_cannot_be_heard_are_given_up() {
    assert_eq!(opus_window_to_wav(true, vec![0u8; 44], b"").map(|w| w.len()), Ok(44));
    assert_eq!(
        opus_window_to_wav(true, vec![0u8; 43], b"").err().as_deref(),
        Some("ffmpeg returned an empty live audio WAV")
    );
    assert_eq!(
        opus_window_to_wav(false, vec![], b" bad \xff packet\n").err().as_deref(),
        Some("ffmpeg live Opus decode failed: bad \u{fffd} packet")
    );
    assert!(check_live_decode(LiveDecode::Decoded).is_none());
    let broke = check_live_decode(LiveDecode::Broke("lost".to_string())).expect("a failure");
    assert_eq!(broke.reason, AudioFailureReason::Decode);
    assert_eq!(broke.message, "live audio decode worker failed: lost");
    let trace = LiveWindowTrace {
        session_id: "sess".to_string(),
        track_id: 3,
        chunk_index: 2,
        source_start_ms: 1_000,
        frame_count: 30,
        decode_ms: 4,
        round_trip_ms: 5,
    };
    let refused = AudioOutcome::Refused(AudioFailureReason::Reported, "busy".to_string());
    let failure = process_window(&trace, &refused).err().expect("a failure");
    assert_eq!((failure.reason, failure.message.as_str()), (AudioFailureReason::Reported, "busy"));
    let quiet = AudioAnalysis { observations: vec![], audio_duration_ms: 10, report: Json::Null };
    assert_eq!(process_window(&trace, &AudioOutcome::Heard(quiet)).map(|e| e.len()).ok(), Some(1));
}
