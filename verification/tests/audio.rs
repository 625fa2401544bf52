use std::time::Duration;

use sol_li_ni::audio::{
    pcm_bytes, sample, Decoder, PacketError, Speaker, FRAME_SAMPLES, MAX_QUEUED,
};
use sol_li_ni::metrics::TurnMetrics;
use sol_li_ni::time::{Moment, Span};

/// A speaker with the metrics it reports to.
struct Queue {
    speaker: Speaker<Vec<f32>>,
    metrics: TurnMetrics,
}

impl Queue {
    fn push(&mut self, frame: Vec<f32>) -> Option<String> {
        self.speaker.push(frame, &mut self.metrics, Moment { nanos: 2_000_000_000 })
    }

    fn pop(&mut self) -> Option<Vec<f32>> {
        self.speaker.pop()
    }

    fn clear(&mut self) -> Duration {
        duration(self.speaker.clear())
    }
}

fn duration(span: Span) -> Duration {
    Duration::from_nanos(span.nanos as u64)
}

fn speaker() -> Queue {
    Queue { speaker: Speaker::new(), metrics: TurnMetrics::default() }
}

#[test]
fn frames_are_played_in_order() {
    let mut speaker = speaker();
    speaker.push(vec![1.0; FRAME_SAMPLES]);
    speaker.push(vec![2.0; FRAME_SAMPLES]);
    assert_eq!(speaker.pop().unwrap()[0], 1.0);
    assert_eq!(speaker.pop().unwrap()[0], 2.0);
    assert!(speaker.pop().is_none());
}

#[test]
fn clearing_drops_everything_not_yet_played() {
    let mut speaker = speaker();
    for _ in 0..50 {
        speaker.push(vec![0.0; FRAME_SAMPLES]);
    }
    // 50 frames of 20 ms is the second of speech the caller will now not hear.
    assert_eq!(speaker.clear(), Duration::from_secs(1));
    assert!(speaker.pop().is_none(), "interrupted audio must not play");
}

#[test]
fn a_runaway_queue_does_not_grow_without_bound() {
    let mut speaker = speaker();
    for _ in 0..MAX_QUEUED + 100 {
        speaker.push(vec![0.0; FRAME_SAMPLES]);
    }
    assert_eq!(speaker.clear(), Duration::from_millis(MAX_QUEUED as u64 * 20));
}

#[test]
fn a_runaway_queue_keeps_the_newest_frames() {
    let mut speaker = speaker();
    for i in 0..MAX_QUEUED + 3 {
        speaker.push(vec![i as f32]);
    }
    assert_eq!(speaker.pop().unwrap()[0], 3.0);
    assert_eq!(speaker.pop().unwrap()[0], 4.0);
}

#[test]
fn an_idle_speaker_gives_silence() {
    let mut speaker = speaker();
    speaker.push(vec![1.0]);
    assert_eq!(speaker.speaker.pop_or(vec![0.0]), [1.0]);
    assert_eq!(speaker.speaker.pop_or(vec![0.0]), [0.0]);
}

#[test]
fn the_first_frame_of_a_turn_reports_the_response() {
    let mut speaker = speaker();
    assert!(speaker.push(vec![0.0]).is_none());
    let _ = speaker.metrics.utterance_end(Moment { nanos: 1_250_000_000 });
    assert_eq!(speaker.push(vec![0.0]).unwrap(), "response metrics: overall 750 ms");
    assert!(speaker.push(vec![0.0]).is_none());
}

#[test]
fn samples_and_bytes_are_little_endian() {
    assert_eq!(pcm_bytes(&[0, 1, -1, i16::MAX, i16::MIN]), [
        0, 0, 1, 0, 255, 255, 255, 127, 0, 128
    ]);
    for s in i16::MIN..=i16::MAX {
        let [lo, hi] = s.to_le_bytes();
        assert_eq!(sample(lo, hi), s);
        assert_eq!(pcm_bytes(&[s]), [lo, hi]);
    }
}

#[test]
fn the_stereo_bit_picks_the_decoder() {
    let mut decoder = Decoder::new();
    assert!(decoder.mono.is_none() && decoder.stereo.is_none());
    assert_eq!(decoder.select(&[0x00, 1]).unwrap(), 1);
    assert!(decoder.mono.is_some() && decoder.stereo.is_none());
    assert_eq!(decoder.select(&[0x04, 1]).unwrap(), 2);
    assert_eq!(decoder.select(&[0xfc, 1]).unwrap(), 2);
    assert_eq!(decoder.select(&[0xfb, 1]).unwrap(), 1);
    assert_eq!(decoder.mono.unwrap().channels, 1);
    assert_eq!(decoder.stereo.unwrap().channels, 2);
}

#[test]
fn an_empty_packet_has_no_decoder() {
    let mut decoder = Decoder::new();
    assert!(matches!(decoder.select(&[]), Err(PacketError::EmptyPacket)));
    assert!(decoder.mono.is_none() && decoder.stereo.is_none());
}

#[test]
fn only_audio_is_routed_to_a_decoder() {
    let mut decoder = Decoder::new();
    assert!(decoder.route(None).is_none());
    assert!(decoder.route(Some(&[])).is_none());
    assert!(decoder.mono.is_none() && decoder.stereo.is_none());
    assert!(matches!(decoder.route(Some(&[0x00, 7])), Some(Ok(1))));
    assert!(matches!(decoder.route(Some(&[0x04])), Some(Ok(2))));
}

#[test]
fn packet_errors_read_well() {
    assert_eq!(PacketError::EmptyPacket.message(), "empty opus packet");
    assert_eq!(PacketError::NoDecoder("no".to_owned()).message(), "opus decoder: no");
}

#[test]
fn the_decoder_that_was_picked_decodes() {
    let mut encoder =
        opus_rs::OpusEncoder::new(48_000, 1, opus_rs::Application::Voip).unwrap();
    let mut packet = vec![0u8; 1276];
    let n = encoder.encode(&vec![0.0; FRAME_SAMPLES], FRAME_SAMPLES, &mut packet).unwrap();
    let mut decoder = Decoder::new();
    assert_eq!(decoder.select(&packet[..n]).unwrap(), 1);
    let mut pcm = vec![1.0f32; 5760 * 2];
    let slot = decoder.mono.as_mut().unwrap();
    let samples = slot.decoder.decode(&packet[..n], 5760, &mut pcm).unwrap();
    assert_eq!(samples, FRAME_SAMPLES);
}
