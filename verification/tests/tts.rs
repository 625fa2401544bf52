use base64::Engine;
use sol_li_ni::audio::FRAME_SAMPLES;
use sol_li_ni::tts::{
    pick_reply, read_reply, stream_url, voice_config, Command, Heard, PcmFrames, Reply, Speech,
    Voice, VoiceMessage,
};

fn pcm(samples: usize) -> Vec<u8> {
    (0..samples).flat_map(|i| (i as i16).to_le_bytes()).collect()
}

/// A frame as the encoder takes it.
fn float(frame: &[i16]) -> Vec<f32> {
    frame.iter().map(|&sample| sample as f32 / 32768.0).collect()
}

#[test]
fn chunks_are_reassembled_into_whole_frames() {
    let mut frames = PcmFrames::default();
    // Half a frame yields nothing yet.
    assert!(frames.push(&pcm(FRAME_SAMPLES / 2)).is_empty());
    // The other half completes it, and the spare samples are held back.
    let out = frames.push(&pcm(FRAME_SAMPLES / 2 + 10));
    assert_eq!(out.len(), 1);
    assert_eq!(out[0].len(), FRAME_SAMPLES);
    assert_eq!(frames.remainder.len(), 20);
}

#[test]
fn a_wav_header_on_the_first_chunk_is_skipped() {
    let mut header = b"RIFF".to_vec();
    header.extend(std::iter::repeat_n(0u8, 40));
    header.extend(pcm(FRAME_SAMPLES));

    let mut frames = PcmFrames::default();
    let out = frames.push(&header);
    assert_eq!(out.len(), 1, "the header must not eat into the audio");
    assert_eq!(float(&out[0])[0], 0.0);
    assert_eq!(float(&out[0])[1], 1.0 / 32768.0);
}

#[test]
fn raw_pcm_without_a_header_is_left_alone() {
    let mut frames = PcmFrames::default();
    let out = frames.push(&pcm(FRAME_SAMPLES));
    assert_eq!(out.len(), 1);
    assert_eq!(float(&out[0])[1], 1.0 / 32768.0);
}

#[test]
fn a_header_is_looked_for_once_and_only_whole() {
    // Too short to be a header.
    let mut frames = PcmFrames::default();
    assert!(frames.push(b"RIFF").is_empty());
    assert_eq!(frames.remainder, b"RIFF");
    // Not on a later chunk.
    let mut frames = PcmFrames::default();
    assert!(frames.push(&[]).is_empty());
    let mut later = b"RIFF".to_vec();
    later.extend(vec![0u8; 40]);
    assert!(frames.push(&later).is_empty());
    assert_eq!(frames.remainder.len(), 44);
}

#[test]
fn chunk_borders_do_not_matter() {
    let audio: Vec<u8> = (0..10_000).map(|i| (i * 7 % 251) as u8).collect();
    let mut whole = PcmFrames::default();
    let expected = whole.push(&audio);
    assert_eq!(expected.len(), 5);
    for size in [1, 2, 3, 1919, 1920, 1921, 4000] {
        let mut frames = PcmFrames::default();
        let mut out = Vec::new();
        for chunk in audio.chunks(size) {
            out.extend(frames.push(chunk));
        }
        assert_eq!(out, expected);
        assert_eq!(frames.remainder, whole.remainder);
    }
}

#[test]
fn the_stream_is_opened_with_the_key_and_the_format() {
    assert_eq!(
        stream_url("wss://h/s", "k"),
        "wss://h/s?api-key=k&sample_rate=48000&channel_type=MONO&format=PCM"
    );
    assert_eq!(
        stream_url("wss://h/s?x=1", "k"),
        "wss://h/s?x=1&api-key=k&sample_rate=48000&channel_type=MONO&format=PCM"
    );
}

#[test]
fn a_voice_is_configured_for_all_or_for_one_context() {
    let config = voice_config("v", None);
    assert_eq!(config.voice_id, "v");
    assert_eq!(config.style, "Conversational");
    assert_eq!((config.rate, config.pitch, config.variation), (0, 0, 1));
    assert_eq!(config.context_id, None);
    assert_eq!(voice_config("v", Some("c".to_owned())).context_id.as_deref(), Some("c"));
    assert_eq!(Voice::new("w".to_owned()).opening().voice_id, "w");
}

fn speak(text: &str, context_id: &str, end: bool) -> Command {
    Command::Speak(Speech { text: text.to_owned(), context_id: context_id.to_owned(), end })
}

fn clear(context_id: &str) -> Command {
    Command::Clear { context_id: context_id.to_owned() }
}

/// Messages in short: what they are, and for which context.
fn sent(messages: Vec<VoiceMessage>) -> Vec<String> {
    messages
        .into_iter()
        .map(|m| match m {
            VoiceMessage::Config(c) => {
                format!("config {} {}", c.voice_id, c.context_id.unwrap_or_default())
            }
            VoiceMessage::Text { text, context_id, end } => {
                format!("text {context_id} {text} {end}")
            }
            VoiceMessage::Clear { context_id } => format!("clear {context_id}"),
        })
        .collect()
}

#[test]
fn every_context_gets_the_voice_before_its_text() {
    let mut voice = Voice::new("v".to_owned());
    assert_eq!(sent(voice.command(speak("one", "a", false))), ["config v a", "text a one false"]);
    assert_eq!(sent(voice.command(speak("two", "a", true))), ["text a two true"]);
    assert_eq!(sent(voice.command(clear("a"))), ["clear a"]);
    assert_eq!(sent(voice.command(speak("x", "b", true))), ["config v b", "text b x true"]);
    assert_eq!(sent(voice.command(speak("y", "a", true))), ["config v a", "text a y true"]);
    let copy = speak("z", "a", true).clone();
    assert_eq!(sent(voice.command(copy)), ["text a z true"]);
}

fn audio_message(bytes: &[u8]) -> String {
    format!(
        r#"{{"audio":"{}","final":false}}"#,
        base64::engine::general_purpose::STANDARD.encode(bytes)
    )
}

fn frames(heard: Result<Heard, String>) -> Vec<Vec<i16>> {
    match heard {
        Ok(Heard::Frames(frames)) => frames,
        other => panic!("{other:?}"),
    }
}

#[test]
fn audio_arrives_as_frames() {
    let mut voice = Voice::new("v".to_owned());
    let out = frames(voice.receive(&audio_message(&pcm(FRAME_SAMPLES + 1))));
    assert_eq!(out.len(), 1);
    assert_eq!(out[0], (0..FRAME_SAMPLES as i16).collect::<Vec<i16>>());
}

#[test]
fn a_cleared_turn_is_silent_until_the_next_sentence() {
    let mut voice = Voice::new("v".to_owned());
    voice.command(speak("one", "a", false));
    voice.command(clear("a"));
    // Wanted or not, audio passes through the framer, so what follows stays aligned.
    let half = pcm(FRAME_SAMPLES / 2);
    assert!(frames(voice.receive(&audio_message(&pcm(FRAME_SAMPLES)))).is_empty());
    assert!(frames(voice.receive(&audio_message(&half))).is_empty());
    voice.command(speak("two", "b", false));
    let out = frames(voice.receive(&audio_message(&half)));
    assert_eq!(out.len(), 1);
    assert_eq!(out[0][0], 0);
    assert_eq!(out[0][FRAME_SAMPLES / 2], 0);
    assert_eq!(out[0][FRAME_SAMPLES / 2 + 1], 1);
}

#[test]
fn errors_end_the_stream_and_warnings_do_not() {
    let mut voice = Voice::new("v".to_owned());
    assert_eq!(
        voice.receive("no json").unwrap_err(),
        "murf sent invalid JSON: expected ident at line 1 column 2"
    );
    assert_eq!(
        voice.receive(r#"{"audio":"***"}"#).unwrap_err(),
        "murf sent invalid base64: Invalid symbol 42, offset 0."
    );
    assert_eq!(voice.receive(r#"{"error":"bad voice"}"#).unwrap_err(), "murf: bad voice");
    assert!(matches!(
        voice.receive(r#"{"warning":"slow"}"#),
        Ok(Heard::Warning(w)) if w == "murf: slow"
    ));
    assert!(matches!(voice.receive(r#"{"final":true}"#), Ok(Heard::Nothing)));
    assert!(matches!(voice.receive("[1]"), Ok(Heard::Nothing)));
}

#[test]
fn an_answer_is_read_by_its_string_members() {
    assert!(matches!(read_reply(r#"{"audio":"AAEC"}"#), Reply::Audio(b) if b == [0, 1, 2]));
    assert!(matches!(read_reply(r#"{"audio":1,"error":"e"}"#), Reply::Error(e) if e == "e"));
    assert!(matches!(
        read_reply(r#"{"audio":null,"warning":"A"}"#),
        Reply::Warning(w) if w == "A"
    ));
    assert!(matches!(
        read_reply(r#"{"audio":"AAE"}"#),
        Reply::InvalidAudio(cause) if !cause.is_empty()
    ));
    assert!(matches!(read_reply(r#"{"error":{"audio":"AAEC"}}"#), Reply::Other));
    assert!(matches!(
        read_reply("{"),
        Reply::InvalidJson(cause) if cause == "EOF while parsing an object at line 1 column 1"
    ));
}

#[test]
fn an_answer_that_was_read_is_heard() {
    let mut voice = Voice::new("v".to_owned());
    assert_eq!(
        voice.hear(Reply::InvalidJson("x".to_owned())).unwrap_err(),
        "murf sent invalid JSON: x"
    );
    assert_eq!(
        voice.hear(Reply::InvalidAudio("y".to_owned())).unwrap_err(),
        "murf sent invalid base64: y"
    );
    assert_eq!(voice.hear(Reply::Error("x".to_owned())).unwrap_err(), "murf: x");
    assert_eq!(frames(voice.hear(Reply::Audio(pcm(2 * FRAME_SAMPLES)))).len(), 2);
    assert!(matches!(voice.hear(Reply::Other), Ok(Heard::Nothing)));
}

#[test]
fn audio_comes_before_errors_and_errors_before_warnings() {
    let text = |s: &str| Some(s.to_owned());
    assert!(matches!(pick_reply(Some(Ok(vec![7])), text("e"), text("w")), Reply::Audio(b) if b == [7]));
    assert!(matches!(
        pick_reply(Some(Err("c".to_owned())), text("e"), text("w")),
        Reply::InvalidAudio(cause) if cause == "c"
    ));
    assert!(matches!(pick_reply(None, text("e"), text("w")), Reply::Error(e) if e == "e"));
    assert!(matches!(pick_reply(None, None, text("w")), Reply::Warning(w) if w == "w"));
    assert!(matches!(pick_reply(None, None, None), Reply::Other));
    assert!(matches!(
        read_reply(r#"{"warning":"w","error":"e","audio":"AAEC"}"#),
        Reply::Audio(b) if b == [0, 1, 2]
    ));
}
