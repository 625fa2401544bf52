//! Audio on its way in and out: 20 ms mono frames at 48 kHz, their bytes, the queue of speech
//! waiting to be sent, and the choice of decoder for a packet.

use std::collections::VecDeque;

use vstd::prelude::*;
use vstd::string::*;

use crate::metrics::{after_audible, response_report, TurnMetrics};
use crate::text::opt_text;
use crate::time::{Moment, Span};

verus! {

pub const SAMPLE_RATE: usize = 48_000;

/// 20 ms at 48 kHz.
pub const FRAME_SAMPLES: usize = 960;

/// The time one frame lasts.
pub const FRAME_MILLIS: u64 = 20;

/// About 30 seconds of audio. A reply that outruns this is a bug somewhere upstream.
pub const MAX_QUEUED: usize = 1_500;

/// Samples per channel in the largest Opus frame, which lasts 120 ms.
pub const MAX_PACKET_SAMPLES: usize = 5_760;

/// One 20 ms mono frame of 16-bit samples at 48 kHz.
pub type Frame = Vec<i16>;

// ---- samples and bytes

/// The unsigned 16-bit pattern of a sample.
pub open spec fn pattern(sample: i16) -> int {
    if sample >= 0 {
        sample as int
    } else {
        sample + 65536
    }
}

/// The sample that two bytes hold, low byte first.
pub open spec fn sample_of(lo: u8, hi: u8) -> i16 {
    let bits = lo + hi * 256;
    if bits >= 32768 {
        (bits - 65536) as i16
    } else {
        bits as i16
    }
}

/// The samples that a run of bytes holds, low byte first. A last odd byte holds none.
pub open spec fn samples_of(bytes: Seq<u8>) -> Seq<i16> {
    Seq::new(bytes.len() / 2, |i: int| sample_of(bytes[2 * i], bytes[2 * i + 1]))
}

/// The bytes of a run of samples, low byte first.
pub open spec fn bytes_of(samples: Seq<i16>) -> Seq<u8> {
    Seq::new(
        samples.len() * 2,
        |i: int|
            if i % 2 == 0 {
                (pattern(samples[i / 2]) % 256) as u8
            } else {
                (pattern(samples[i / 2]) / 256) as u8
            },
    )
}

/// The sample that two bytes hold, low byte first.
pub fn sample(lo: u8, hi: u8) -> (s: i16)
    ensures
        s == sample_of(lo, hi),
{
    let bits: i32 = lo as i32 + (hi as i32) * 256;
    if bits >= 32768 {
        (bits - 65536) as i16
    } else {
        bits as i16
    }
}

/// The bytes of a run of samples, low byte first.
pub fn pcm_bytes(samples: &[i16]) -> (bytes: Vec<u8>)
    ensures
        bytes@ == bytes_of(samples@),
{
    let mut bytes: Vec<u8> = Vec::new();
    let mut i: usize = 0;
    while i < samples.len()
        invariant
            i <= samples@.len(),
            bytes@.len() == i * 2,
            forall|k: int| 0 <= k < i * 2 ==> bytes@[k] == bytes_of(samples@)[k],
        decreases samples@.len() - i,
    {
        let s = samples[i];
        let bits: i32 = if s >= 0 {
            s as i32
        } else {
            s as i32 + 65536
        };
        bytes.push((bits % 256) as u8);
        bytes.push((bits / 256) as u8);
        i = i + 1;
    }
    assert(bytes@ =~= bytes_of(samples@));
    bytes
}

/// Reading samples back from their bytes gives the same samples.
pub proof fn law_samples_survive_their_bytes(samples: Seq<i16>)
    ensures
        samples_of(bytes_of(samples)) == samples,
{
    assert forall|i: int| 0 <= i < samples.len() implies samples_of(bytes_of(samples))[i]
        == samples[i] by {
        let bits = pattern(samples[i]);
        assert((2 * i) / 2 == i && (2 * i + 1) / 2 == i);
        assert(bits % 256 + bits / 256 * 256 == bits);
    }
    assert(samples_of(bytes_of(samples)) =~= samples);
}

/// Writing out the samples of whole pairs of bytes gives the same bytes.
pub proof fn law_bytes_survive_their_samples(bytes: Seq<u8>)
    requires
        bytes.len() % 2 == 0,
    ensures
        bytes_of(samples_of(bytes)) == bytes,
{
    assert forall|i: int| 0 <= i < bytes.len() implies bytes_of(samples_of(bytes))[i]
        == bytes[i] by {
        let k = i / 2;
        let lo = bytes[2 * k];
        let hi = bytes[2 * k + 1];
        assert(pattern(sample_of(lo, hi)) == lo + hi * 256);
        assert((lo + hi * 256) % 256 == lo && (lo + hi * 256) / 256 == hi);
    }
    assert(bytes_of(samples_of(bytes)) =~= bytes);
}

// ---- speech waiting to be sent

/// A queue after one more frame: a full one gives up its oldest.
pub open spec fn queued<F>(queue: Seq<F>, frame: F) -> Seq<F> {
    if queue.len() >= MAX_QUEUED {
        queue.drop_first().push(frame)
    } else {
        queue.push(frame)
    }
}

/// A queue after a run of frames.
pub open spec fn queued_all<F>(queue: Seq<F>, frames: Seq<F>) -> Seq<F>
    decreases frames.len(),
{
    if frames.len() == 0 {
        queue
    } else {
        queued(queued_all(queue, frames.drop_last()), frames.last())
    }
}

/// How long a queue plays.
pub open spec fn playing_time<F>(queue: Seq<F>) -> Span {
    Span { nanos: (queue.len() * FRAME_MILLIS * 1_000_000) as u128 }
}

/// Audio waiting to be sent to the caller.
///
/// A queue rather than a channel because barge-in has to throw away everything not yet played:
/// with a channel, frames already queued would keep playing after the agent was interrupted.
pub struct Speaker<F> {
    frames: VecDeque<F>,
}

impl<F> View for Speaker<F> {
    type V = Seq<F>;

    closed spec fn view(&self) -> Seq<F> {
        self.frames@
    }
}

impl<F> Speaker<F> {
    /// The queue never outgrows its limit.
    pub open spec fn wf(&self) -> bool {
        self@.len() <= MAX_QUEUED
    }

    pub fn new() -> (s: Self)
        ensures
            s@ == Seq::<F>::empty(),
            s.wf(),
    {
        Speaker { frames: VecDeque::new() }
    }

    /// Queues a frame. The first frame of a turn is the moment the caller can hear the agent,
    /// and is reported as such.
    pub fn push(&mut self, frame: F, metrics: &mut TurnMetrics, now: Moment) -> (line: Option<
        String,
    >)
        requires
            old(self).wf(),
        ensures
            final(self).wf(),
            final(self)@ == queued(old(self)@, frame),
            final(metrics)@ == after_audible(old(metrics)@),
            opt_text(line) == response_report(old(metrics)@, now),
    {
        let line = metrics.response_audible(now);
        if self.frames.len() >= MAX_QUEUED {
            let _ = self.frames.pop_front();
            assert(self.frames@ =~= old(self)@.drop_first());
        }
        self.frames.push_back(frame);
        line
    }

    pub fn pop(&mut self) -> (r: Option<F>)
        requires
            old(self).wf(),
        ensures
            final(self).wf(),
            match r {
                Some(frame) => old(self)@.len() > 0 && frame == old(self)@[0] && final(self)@
                    == old(self)@.drop_first(),
                None => old(self)@.len() == 0 && final(self)@ == old(self)@,
            },
    {
        let r = self.frames.pop_front();
        assert(r is Some ==> self.frames@ =~= old(self)@.drop_first());
        r
    }

    /// The frame to send at this tick: queued agent audio, or silence when idle so the
    /// receiver's jitter buffer keeps a steady clock.
    pub fn pop_or(&mut self, silence: F) -> (frame: F)
        requires
            old(self).wf(),
        ensures
            final(self).wf(),
            old(self)@.len() > 0 ==> frame == old(self)@[0] && final(self)@
                == old(self)@.drop_first(),
            old(self)@.len() == 0 ==> frame == silence && final(self)@ == old(self)@,
    {
        match self.pop() {
            Some(frame) => frame,
            None => silence,
        }
    }

    /// Drops everything not yet played. Returns how much audio was discarded.
    pub fn clear(&mut self) -> (dropped: Span)
        requires
            old(self).wf(),
        ensures
            final(self).wf(),
            final(self)@ == Seq::<F>::empty(),
            dropped == playing_time(old(self)@),
    {
        let dropped = self.frames.len();
        self.frames.clear();
        Span::from_millis(dropped as u64 * FRAME_MILLIS)
    }
}

/// However many frames are queued, what waits is the newest of them, in order, and never more
/// than the limit.
pub proof fn law_the_newest_frames_wait_in_order<F>(queue: Seq<F>, frames: Seq<F>)
    requires
        queue.len() <= MAX_QUEUED,
    ensures
        queue.len() + frames.len() <= MAX_QUEUED ==> queued_all(queue, frames) == queue + frames,
        queue.len() + frames.len() > MAX_QUEUED ==> queued_all(queue, frames) == (queue
            + frames).skip(queue.len() + frames.len() - MAX_QUEUED),
        queued_all(queue, frames).len() <= MAX_QUEUED,
    decreases frames.len(),
{
    if frames.len() == 0 {
        assert(queue + frames =~= queue);
    } else {
        law_the_newest_frames_wait_in_order(queue, frames.drop_last());
        let before = queue + frames.drop_last();
        let all = queue + frames;
        assert(all =~= before.push(frames.last()));
        if all.len() > MAX_QUEUED {
            assert(queued_all(queue, frames) =~= all.skip(all.len() - MAX_QUEUED));
        }
    }
}

// ---- the decoder for a packet

/// The Opus decoder of `opus_rs`, which this library only carries.
#[verifier::external_type_specification]
#[verifier::external_body]
pub struct ExOpusDecoder(opus_rs::OpusDecoder);

/// The sampling rates that Opus knows.
pub open spec fn is_opus_rate(rate: i32) -> bool {
    rate == 8000 || rate == 12000 || rate == 16000 || rate == 24000 || rate == 48000
}

/// The decoder that `opus_rs::OpusDecoder::new` makes for a sampling rate and a number of
/// channels.
pub uninterp spec fn new_decoder(sampling_rate: i32, channels: usize) -> opus_rs::OpusDecoder;

/// `opus_rs::OpusDecoder::new`: it makes a decoder for each of the Opus sampling rates with one
/// or two channels, always the same for the same arguments, and otherwise names the argument it
/// refuses, the rate first. What the decoder does with packets later is not described here.
pub assume_specification[ opus_rs::OpusDecoder::new ](
    sampling_rate: i32,
    channels: usize,
) -> (r: Result<opus_rs::OpusDecoder, &'static str>)
    ensures
        match r {
            Ok(decoder) => is_opus_rate(sampling_rate) && (channels == 1 || channels == 2)
                && decoder == new_decoder(sampling_rate, channels),
            Err(e) => if is_opus_rate(sampling_rate) {
                channels != 1 && channels != 2 && e@ == "Invalid number of channels"@
            } else {
                e@ == "Invalid sampling rate"@
            },
        },
;

/// A decoder and the number of channels it was made for.
pub struct Slot {
    pub channels: usize,
    pub decoder: opus_rs::OpusDecoder,
}

/// The decoders of one caller: one per channel count, made when a packet first needs it.
///
/// The call always negotiates Opus as 2 channels, but browsers send mono-coded packets for a
/// mic, so the stereo bit of each packet picks its decoder.
pub struct Decoder {
    pub mono: Option<Slot>,
    pub stereo: Option<Slot>,
}

/// Why a packet cannot be decoded.
#[derive(Debug)]
pub enum PacketError {
    EmptyPacket,
    NoDecoder(String),
}

/// What is said of a packet that cannot be decoded.
pub open spec fn packet_error_text(e: PacketError) -> Seq<char> {
    match e {
        PacketError::EmptyPacket => "empty opus packet"@,
        PacketError::NoDecoder(reason) => "opus decoder: "@ + reason@,
    }
}

impl PacketError {
    pub fn message(&self) -> (m: String)
        ensures
            m@ == packet_error_text(*self),
    {
        match self {
            PacketError::EmptyPacket => "empty opus packet".to_owned(),
            PacketError::NoDecoder(reason) => {
                let mut m = "opus decoder: ".to_owned();
                m.append(reason.as_str());
                m
            },
        }
    }
}

/// How many channels a packet holds: its first byte says so in one bit.
pub open spec fn packet_channels(packet: Seq<u8>) -> usize {
    if packet[0] & 0x04 != 0 {
        2
    } else {
        1
    }
}

/// The decoders after a packet: the one it needs is there, made for its channels at the rate of
/// the call unless it was there before, and the other place is as it was.
pub open spec fn decoders_after(before: Decoder, after: Decoder, channels: usize) -> bool {
    if channels == 2 {
        &&& after.stereo is Some
        &&& before.stereo is Some ==> after.stereo == before.stereo
        &&& before.stereo is None ==> after.stereo->0.decoder == new_decoder(SAMPLE_RATE as i32, 2)
        &&& after.mono == before.mono
    } else {
        &&& after.mono is Some
        &&& before.mono is Some ==> after.mono == before.mono
        &&& before.mono is None ==> after.mono->0.decoder == new_decoder(SAMPLE_RATE as i32, 1)
        &&& after.stereo == before.stereo
    }
}

impl Decoder {
    /// Each decoder stands in the place for its channel count.
    pub open spec fn wf(&self) -> bool {
        &&& self.mono matches Some(slot) ==> slot.channels == 1
        &&& self.stereo matches Some(slot) ==> slot.channels == 2
    }

    pub fn new() -> (d: Self)
        ensures
            d.wf(),
            d.mono is None,
            d.stereo is None,
    {
        Decoder { mono: None, stereo: None }
    }

    /// The decoder for `packet`, made on demand. Whatever is there already is kept.
    pub fn select(&mut self, packet: &[u8]) -> (r: Result<usize, PacketError>)
        requires
            old(self).wf(),
        ensures
            final(self).wf(),
            match r {
                Ok(channels) => {
                    &&& packet@.len() > 0
                    &&& channels == packet_channels(packet@)
                    &&& decoders_after(*old(self), *final(self), channels)
                },
                Err(e) => packet@.len() == 0 && e is EmptyPacket && *final(self) == *old(self),
            },
    {
        if packet.len() == 0 {
            return Err(PacketError::EmptyPacket);
        }
        let toc = packet[0];
        if toc & 0x04 != 0 {
            if self.stereo.is_none() {
                match opus_rs::OpusDecoder::new(SAMPLE_RATE as i32, 2) {
                    Ok(decoder) => {
                        self.stereo = Some(Slot { channels: 2, decoder });
                    },
                    Err(e) => {
                        return Err(PacketError::NoDecoder(e.to_owned()));
                    },
                }
            }
            Ok(2)
        } else {
            if self.mono.is_none() {
                match opus_rs::OpusDecoder::new(SAMPLE_RATE as i32, 1) {
                    Ok(decoder) => {
                        self.mono = Some(Slot { channels: 1, decoder });
                    },
                    Err(e) => {
                        return Err(PacketError::NoDecoder(e.to_owned()));
                    },
                }
            }
            Ok(1)
        }
    }

    /// What to do with what a track brings: `payload` is that of an audio packet, or `None` for
    /// anything else. Packets without audio, as when the browser stops the track, are passed
    /// over; any other has its decoder picked.
    pub fn route(&mut self, payload: Option<&[u8]>) -> (r: Option<Result<usize, PacketError>>)
        requires
            old(self).wf(),
        ensures
            final(self).wf(),
            match payload {
                Some(packet) => if packet@.len() == 0 {
                    r is None && *final(self) == *old(self)
                } else {
                    r matches Some(Ok(channels)) && channels == packet_channels(packet@)
                        && decoders_after(*old(self), *final(self), channels)
                },
                None => r is None && *final(self) == *old(self),
            },
    {
        match payload {
            Some(packet) => if packet.len() == 0 {
                None
            } else {
                Some(self.select(packet))
            },
            None => None,
        }
    }
}

// ---- what holds of every queue, packet and sample

/// Frames come out one at a time and in the order they went in: the oldest first.
pub proof fn law_the_oldest_frame_is_played_first<F>(
    speaker: &mut Speaker<F>,
    frames: Seq<F>,
    r: Option<F>,
)
    requires
        call_ensures(Speaker::<F>::pop, (speaker,), r),
        old(speaker)@ == frames,
    ensures
        r is Some <==> frames.len() > 0,
        r matches Some(frame) ==> seq![frame] + final(speaker)@ == frames,
        r is None ==> final(speaker)@ == frames,
{
    if frames.len() > 0 {
        assert(seq![frames[0]] + frames.drop_first() =~= frames);
    }
}

/// The pacer is given the oldest frame, and silence exactly where there is none.
pub proof fn law_silence_is_played_only_when_idle<F>(
    speaker: &mut Speaker<F>,
    silence: F,
    frame: F,
)
    requires
        call_ensures(Speaker::<F>::pop_or, (speaker, silence), frame),
    ensures
        old(speaker)@.len() == 0 ==> frame == silence && final(speaker)@ == old(speaker)@,
        old(speaker)@.len() > 0 ==> seq![frame] + final(speaker)@ == old(speaker)@,
{
    if old(speaker)@.len() > 0 {
        assert(seq![old(speaker)@[0]] + old(speaker)@.drop_first() =~= old(speaker)@);
    }
}

/// A frame that is queued waits behind all others. Only a queue of 1500 gives one up for it, and
/// that is its oldest.
pub proof fn law_a_frame_waits_behind_all_others<F>(
    speaker: &mut Speaker<F>,
    frame: F,
    metrics: &mut TurnMetrics,
    now: Moment,
    line: Option<String>,
)
    requires
        call_ensures(Speaker::<F>::push, (speaker, frame, metrics, now), line),
        old(speaker)@.len() <= 1_500,
    ensures
        final(speaker)@.len() > 0,
        final(speaker)@.last() == frame,
        old(speaker)@.len() < 1_500 ==> final(speaker)@.drop_last() == old(speaker)@,
        old(speaker)@.len() == 1_500 ==> final(speaker)@.drop_last() == old(speaker)@.skip(1),
        // The first frame of a turn is reported, and only the first.
        line is Some <==> old(metrics)@.turn_ended is Some,
        final(metrics)@.turn_ended is None,
        final(metrics)@.partials == old(metrics)@.partials,
        final(metrics)@.partials_unknown == old(metrics)@.partials_unknown,
        final(metrics)@.last_final == old(metrics)@.last_final,
        final(metrics)@.reply_started == old(metrics)@.reply_started,
        final(metrics)@.llm_first_token == old(metrics)@.llm_first_token,
{
    let q = old(speaker)@;
    if q.len() == 1_500 {
        assert(q.drop_first().push(frame).drop_last() =~= q.skip(1));
    } else {
        assert(q.push(frame).drop_last() =~= q);
    }
}

/// Clearing leaves nothing to play, and says how long it would have played: 20 ms for each frame.
pub proof fn law_clearing_leaves_nothing_to_play<F>(speaker: &mut Speaker<F>, dropped: Span)
    requires
        call_ensures(Speaker::<F>::clear, (speaker,), dropped),
        old(speaker)@.len() <= 1_500,
    ensures
        final(speaker)@.len() == 0,
        dropped.nanos == old(speaker)@.len() * 20 * 1_000_000,
{
}

/// One bit of a packet's first byte, the one worth four, says whether it holds one channel or two.
pub proof fn law_the_stereo_bit_counts_the_channels(packet: Seq<u8>)
    requires
        packet.len() > 0,
    ensures
        packet_channels(packet) == if (packet[0] / 4) % 2 == 1 {
            2usize
        } else {
            1usize
        },
{
    let b = packet[0];
    assert((b & 0x04 != 0) == ((b / 4) % 2 == 1)) by (bit_vector);
}

/// Each packet is decoded by a decoder for the channels it holds: one made for them, at 48 kHz,
/// the first time, and the same one after that. A packet leaves the other decoder alone.
pub proof fn law_a_packet_meets_its_decoder(
    decoder: &mut Decoder,
    packet: &[u8],
    r: Result<usize, PacketError>,
)
    requires
        call_ensures(Decoder::select, (decoder, packet), r),
    ensures
        packet@.len() == 0 <==> r is Err,
        r matches Err(e) ==> e is EmptyPacket && *final(decoder) == *old(decoder),
        packet@.len() > 0 && (packet@[0] / 4) % 2 == 1 ==> {
            &&& r == Ok::<usize, PacketError>(2)
            &&& final(decoder).stereo is Some
            &&& old(decoder).stereo is Some ==> final(decoder).stereo == old(decoder).stereo
            &&& old(decoder).stereo is None ==> final(decoder).stereo->0.decoder == new_decoder(
                48_000,
                2,
            )
            &&& final(decoder).mono == old(decoder).mono
        },
        packet@.len() > 0 && (packet@[0] / 4) % 2 == 0 ==> {
            &&& r == Ok::<usize, PacketError>(1)
            &&& final(decoder).mono is Some
            &&& old(decoder).mono is Some ==> final(decoder).mono == old(decoder).mono
            &&& old(decoder).mono is None ==> final(decoder).mono->0.decoder == new_decoder(
                48_000,
                1,
            )
            &&& final(decoder).stereo == old(decoder).stereo
        },
{
    if packet@.len() > 0 {
        law_the_stereo_bit_counts_the_channels(packet@);
    }
}

/// Everything with audio in it is decoded, and nothing else is: what is no packet, and a packet
/// without audio, are passed over and leave the decoders as they were.
pub proof fn law_all_audio_is_decoded(
    decoder: &mut Decoder,
    payload: Option<&[u8]>,
    r: Option<Result<usize, PacketError>>,
)
    requires
        call_ensures(Decoder::route, (decoder, payload), r),
    ensures
        payload is None || payload->0@.len() == 0 ==> r is None && *final(decoder) == *old(
            decoder,
        ),
        payload is Some && payload->0@.len() > 0 ==> r == Some(
            Ok::<usize, PacketError>(
                if (payload->0@[0] / 4) % 2 == 1 {
                    2usize
                } else {
                    1usize
                },
            ),
        ),
{
    if payload is Some && payload->0@.len() > 0 {
        law_the_stereo_bit_counts_the_channels(payload->0@);
    }
}

/// Two bytes hold a sample in two's complement, low byte first.
pub proof fn law_samples_are_little_endian(lo: u8, hi: u8, s: i16)
    requires
        call_ensures(sample, (lo, hi), s),
    ensures
        s == lo + 256 * hi || s == lo + 256 * hi - 65_536,
{
}

/// Samples go out in order, two bytes each, low byte first.
pub proof fn law_bytes_are_little_endian(samples: &[i16], bytes: Vec<u8>, i: int)
    requires
        call_ensures(pcm_bytes, (samples,), bytes),
        0 <= i < samples@.len(),
    ensures
        bytes@.len() == 2 * samples@.len(),
        ({
            let pattern = bytes@[2 * i] + 256 * bytes@[2 * i + 1];
            samples@[i] == pattern || samples@[i] == pattern - 65_536
        }),
{
    assert((2 * i) / 2 == i && (2 * i + 1) / 2 == i);
    let bits = pattern(samples@[i]);
    assert(bits % 256 + bits / 256 * 256 == bits);
}

/// A frame is 20 ms at 48 kHz, and the longest packet holds 120 ms.
pub proof fn law_frames_last_their_time()
    ensures
        FRAME_SAMPLES * 1_000 == SAMPLE_RATE * FRAME_MILLIS,
        MAX_PACKET_SAMPLES * 1_000 == SAMPLE_RATE * 120,
{
}

} // verus!
