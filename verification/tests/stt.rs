use serde_json::Value;
use sol_li_ni::audio::SAMPLE_RATE;
use sol_li_ni::stt::{
    authorization, downlink, listen_url, uplink, Alternative, AudioClock, Channel, Endpointing,
    Outgoing, Response, SttEvent, UplinkEvent, MAX_MARKS,
};
use sol_li_ni::time::{Moment, Span};

/// 20 ms frames, as the pipeline sends them.
const FRAME: f64 = 0.02;

/// A point on the audio timeline.
fn samples(seconds: f64) -> u64 {
    (seconds * SAMPLE_RATE as f64).round() as u64
}

fn at(millis: u64) -> Moment {
    Moment { nanos: millis * 1_000_000 }
}

#[test]
fn lag_is_measured_from_when_that_audio_was_sent() {
    let mut clock = AudioClock::default();
    clock.sent(samples(FRAME), at(1_000));
    // 50 ms pass.
    clock.sent(samples(FRAME), at(1_050));
    let now = at(1_060);

    // A result covering only the first frame is dated from the first frame, so its lag
    // includes the 50 ms that have passed since.
    let lag = now.since(clock.sent_at(samples(FRAME)).unwrap());
    assert!(lag.nanos >= Span::from_millis(50).nanos, "{lag:?}");
    // A result covering both frames is dated from the second, so its lag is much smaller.
    assert!(now.since(clock.sent_at(samples(FRAME * 2.0)).unwrap()).nanos < lag.nanos);
}

#[test]
fn a_burst_of_audio_does_not_collapse_lag_to_zero() {
    let mut clock = AudioClock::default();
    // Two seconds of audio handed over in one go, as a browser burst does.
    for _ in 0..100 {
        clock.sent(samples(FRAME), at(1_000));
    }
    let now = at(1_030);

    // Elapsed time is far less than the audio duration; lag must still be real, not zero.
    let lag = now.since(clock.sent_at(samples(2.0)).unwrap());
    assert!(lag.nanos >= Span::from_millis(30).nanos, "{lag:?}");
}

#[test]
fn audio_we_have_not_sent_is_unmeasurable_rather_than_zero() {
    let mut clock = AudioClock::default();
    clock.sent(samples(FRAME), at(0));
    assert!(clock.sent_at(samples(5.0)).is_none());
}

#[test]
fn endpointing_from_the_page_is_clamped_to_what_deepgram_accepts() {
    let wild = Endpointing { endpointing: 0, utterance_end_ms: 10 }.clamped();
    assert_eq!(wild.endpointing, 10);
    assert_eq!(wild.utterance_end_ms, 100);

    let huge = Endpointing { endpointing: 99_999, utterance_end_ms: 99_999 }.clamped();
    assert_eq!(huge.endpointing, 5_000);
    assert_eq!(huge.utterance_end_ms, 10_000);

    let sane = Endpointing { endpointing: 800, utterance_end_ms: 2_500 };
    assert_eq!(sane.clamped().endpointing, 800);
    assert_eq!(sane.clamped().utterance_end_ms, 2_500);
}

/// A message as the service writes it.
fn response(json: &str) -> Response {
    let value: Value = serde_json::from_str(json).unwrap();
    match value["type"].as_str() {
        Some("Results") => {
            let end = value["start"].as_f64().unwrap_or(0.0)
                + value["duration"].as_f64().unwrap_or(0.0);
            Response::Results {
                channel: Channel {
                    alternatives: value["channel"]["alternatives"]
                        .as_array()
                        .unwrap()
                        .iter()
                        .map(|a| Alternative {
                            transcript: a["transcript"].as_str().unwrap().to_owned(),
                        })
                        .collect(),
                },
                is_final: value["is_final"].as_bool().unwrap(),
                speech_final: value["speech_final"].as_bool().unwrap_or(false),
                audio_end: if end.is_finite() && end >= 0.0 { Some(samples(end)) } else { None },
            }
        }
        Some("SpeechStarted") => Response::SpeechStarted,
        Some("UtteranceEnd") => Response::UtteranceEnd,
        _ => Response::Other,
    }
}

#[test]
fn results_without_timestamps_have_no_lag() {
    let mut clock = AudioClock::default();
    clock.sent(samples(FRAME), at(0));
    let response = response(
        r#"{"type":"Results","is_final":true,"channel":{"alternatives":[{"transcript":"hi"}]}}"#,
    );
    assert!(response.lag(&clock, at(10)).is_none());
}

#[test]
fn the_default_pauses_are_the_documented_ones() {
    let e = Endpointing::default();
    assert_eq!((e.endpointing, e.utterance_end_ms), (300, 1000));
    assert_eq!(e.clamped(), e);
}

#[test]
fn the_stream_is_opened_with_everything_asked_for() {
    let e = Endpointing { endpointing: 1, utterance_end_ms: 20_000 };
    assert_eq!(
        listen_url("wss://h/listen", e, "hi"),
        "wss://h/listen?model=nova-3&language=hi&encoding=linear16&sample_rate=48000&channels=1\
         &interim_results=true&smart_format=true&punctuate=true&endpointing=10\
         &utterance_end_ms=10000&vad_events=true"
    );
    assert_eq!(authorization("key"), "Token key");
}

#[test]
fn only_the_latest_marks_are_kept() {
    let mut clock = AudioClock::default();
    for i in 0..MAX_MARKS as u64 + 2 {
        clock.sent(1, at(i));
    }
    // The two oldest marks are gone, and with them the dates of the audio they were for.
    assert_eq!(clock.sent_at(1), None);
    assert_eq!(clock.sent_at(2), None);
    assert_eq!(clock.sent_at(3), Some(at(2)));
    assert_eq!(clock.sent_at(4), Some(at(3)));
    assert_eq!(clock.sent_at(MAX_MARKS as u64 + 2), Some(at(MAX_MARKS as u64 + 1)));
    assert_eq!(clock.sent_at(MAX_MARKS as u64 + 3), None);
}

#[test]
fn audio_control_and_goodbye_go_up() {
    let step = uplink(UplinkEvent::Audio(vec![1, -2]));
    assert!(matches!(step.message, Outgoing::Binary(b) if b == [1, 0, 254, 255]));
    assert_eq!((step.samples, step.last), (2, false));
    let step = uplink(UplinkEvent::KeepaliveDue);
    assert!(matches!(step.message, Outgoing::Text(t) if t == r#"{"type":"KeepAlive"}"#));
    assert_eq!((step.samples, step.last), (0, false));
    let step = uplink(UplinkEvent::MicClosed);
    assert!(matches!(step.message, Outgoing::Text(t) if t == r#"{"type":"CloseStream"}"#));
    assert!(step.last);
}

fn events(json: &str, clock: &AudioClock, now: Moment) -> Vec<SttEvent> {
    downlink(response(json), clock, now)
}

#[test]
fn messages_become_events() {
    let mut clock = AudioClock::default();
    clock.sent(samples(1.0), at(500));
    let now = at(620);
    let lag = Some(Span::from_millis(120));

    let e = events(
        r#"{"type":"SpeechStarted","channel":[0],"timestamp":0.0}"#,
        &clock,
        now,
    );
    assert!(matches!(e[..], [SttEvent::SpeechStarted]));

    let e = events(
        r#"{"type":"Results","is_final":false,"speech_final":false,"start":0.0,"duration":0.6,"channel":{"alternatives":[{"transcript":"hello from the"}]}}"#,
        &clock,
        now,
    );
    assert_eq!(e.len(), 1);
    assert!(matches!(&e[0], SttEvent::Interim { text, lag: l } if text == "hello from the" && *l == lag));

    let e = events(
        r#"{"type":"Results","is_final":true,"speech_final":true,"start":0.0,"duration":0.95,"channel":{"alternatives":[{"transcript":"hello from the mock"}]}}"#,
        &clock,
        now,
    );
    assert_eq!(e.len(), 2);
    assert!(matches!(&e[0], SttEvent::Final { text, lag: l } if text == "hello from the mock" && *l == lag));
    assert!(matches!(e[1], SttEvent::UtteranceEnd));

    let e = events(r#"{"type":"UtteranceEnd","channel":[0],"last_word_end":1.0}"#, &clock, now);
    assert!(matches!(e[..], [SttEvent::UtteranceEnd]));

    assert!(events(r#"{"type":"Metadata"}"#, &clock, now).is_empty());
}

#[test]
fn results_without_words_are_no_events() {
    let clock = AudioClock::default();
    for json in [
        r#"{"type":"Results","is_final":true,"speech_final":true,"channel":{"alternatives":[{"transcript":""}]}}"#,
        r#"{"type":"Results","is_final":true,"speech_final":true,"channel":{"alternatives":[]}}"#,
    ] {
        assert!(events(json, &clock, at(0)).is_empty());
    }
}

#[test]
fn the_timeline_has_an_end() {
    let mut clock = AudioClock::default();
    clock.sent(u64::MAX - 1, at(1));
    clock.sent(5, at(2));
    assert_eq!(clock.sent_at(u64::MAX - 1), Some(at(1)));
    assert_eq!(clock.sent_at(u64::MAX), Some(at(2)));
}

#[test]
fn an_event_is_copied_whole() {
    let lag = Some(Span::from_millis(3));
    let event = SttEvent::Final { text: "hi".to_owned(), lag };
    assert!(matches!(event.clone(), SttEvent::Final { text, lag: l } if text == "hi" && l == lag));
    assert!(matches!(SttEvent::SpeechStarted.clone(), SttEvent::SpeechStarted));
}
