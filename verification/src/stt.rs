//! Speech to text: what goes up to Deepgram's streaming API, what its messages mean, and how far
//! they trail the audio.
//!
//! Deepgram accepts 48 kHz linear16 directly, so caller audio goes up as-is with no
//! resampling. `endpointing` + `utterance_end_ms` tell us when the caller stopped talking.

use std::collections::VecDeque;

use vstd::prelude::*;
use vstd::string::*;

use crate::audio::{
    bytes_of, law_samples_survive_their_bytes, pcm_bytes, samples_of, Frame,
};
use crate::text::{decimal, decimal_text};
use crate::time::{time_between, Moment, Span};

verus! {

pub const DEFAULT_URL: &'static str = "wss://api.deepgram.com/v1/listen";

/// Language code used when neither the page nor `STT_LANGUAGE` picks one.
pub const DEFAULT_LANGUAGE: &'static str = "en";

/// Every language the page offers is one this model transcribes.
pub const MODEL: &'static str = "nova-3";

/// The service drops an idle stream after ~10 s; it is pinged well inside that.
pub const KEEPALIVE_SECS: u64 = 4;

/// About two minutes of 20 ms frames.
pub const MAX_MARKS: usize = 6_000;

// ---- turn taking

/// Turn-taking knobs, chosen per call from the web page so they can be tuned by ear.
#[derive(Debug, Clone, Copy, PartialEq, Eq, Structural)]
pub struct Endpointing {
    /// Silence (ms) that ends a segment. Lower replies sooner but cuts off pauses.
    pub endpointing: u32,
    /// Gap (ms) with no new words before the turn is declared over. Backstop for `endpointing`,
    /// not a latency lever.
    pub utterance_end_ms: u32,
}

/// The number nearest to `x` from `lo` to `hi`.
pub open spec fn within(x: u32, lo: u32, hi: u32) -> u32 {
    if x < lo {
        lo
    } else if x > hi {
        hi
    } else {
        x
    }
}

fn clamp(x: u32, lo: u32, hi: u32) -> (r: u32)
    ensures
        r == within(x, lo, hi),
{
    if x < lo {
        lo
    } else if x > hi {
        hi
    } else {
        x
    }
}

/// The settings nearest to `e` that the service accepts.
pub open spec fn accepted(e: Endpointing) -> Endpointing {
    Endpointing {
        endpointing: within(e.endpointing, 10, 5_000),
        utterance_end_ms: within(e.utterance_end_ms, 100, 10_000),
    }
}

impl Default for Endpointing {
    fn default() -> (e: Self)
        ensures
            e == (Endpointing { endpointing: 300, utterance_end_ms: 1000 }),
    {
        Endpointing { endpointing: 300, utterance_end_ms: 1000 }
    }
}

impl Endpointing {
    /// Keeps values inside what the service accepts, whatever the page sends.
    pub fn clamped(self) -> (e: Self)
        ensures
            e == accepted(self),
    {
        Endpointing {
            endpointing: clamp(self.endpointing, 10, 5_000),
            utterance_end_ms: clamp(self.utterance_end_ms, 100, 10_000),
        }
    }
}

/// Clamped settings are always in range, and clamping them again changes nothing.
pub proof fn law_clamping_settles(e: Endpointing)
    ensures
        10 <= accepted(e).endpointing <= 5_000,
        100 <= accepted(e).utterance_end_ms <= 10_000,
        accepted(accepted(e)) == accepted(e),
        10 <= e.endpointing <= 5_000 && 100 <= e.utterance_end_ms <= 10_000 ==> accepted(e) == e,
{
}

// ---- connecting

/// Where a stream is opened: the endpoint, and what is asked of it.
pub open spec fn listen_url_text(url: Seq<char>, e: Endpointing, language: Seq<char>) -> Seq<
    char,
> {
    url + "?model="@ + MODEL@ + "&language="@ + language
        + "&encoding=linear16&sample_rate=48000&channels=1&interim_results=true&smart_format=true&punctuate=true&endpointing="@
        + decimal_text(accepted(e).endpointing as nat) + "&utterance_end_ms="@ + decimal_text(
        accepted(e).utterance_end_ms as nat,
    ) + "&vad_events=true"@
}

/// Where a stream is opened: the endpoint, and what is asked of it.
pub fn listen_url(url: &str, endpointing: Endpointing, language: &str) -> (r: String)
    ensures
        r@ == listen_url_text(url@, endpointing, language@),
{
    let endpointing = endpointing.clamped();
    let mut r = url.to_owned();
    r.append("?model=");
    r.append(MODEL);
    r.append("&language=");
    r.append(language);
    r.append(
        "&encoding=linear16&sample_rate=48000&channels=1&interim_results=true&smart_format=true&punctuate=true&endpointing=",
    );
    r.append(decimal(endpointing.endpointing as u128).as_str());
    r.append("&utterance_end_ms=");
    r.append(decimal(endpointing.utterance_end_ms as u128).as_str());
    r.append("&vad_events=true");
    r
}

/// The `Authorization` header of a stream.
pub fn authorization(api_key: &str) -> (r: String)
    ensures
        r@ == "Token "@ + api_key@,
{
    let mut r = "Token ".to_owned();
    r.append(api_key);
    r
}

// ---- going up

/// What can happen while audio goes up.
#[derive(Debug)]
pub enum UplinkEvent {
    /// The caller's next audio.
    Audio(Frame),
    /// Nothing was sent for a while.
    KeepaliveDue,
    /// There is no more audio to come.
    MicClosed,
}

/// What is sent up.
#[derive(Debug)]
pub enum Outgoing {
    Binary(Vec<u8>),
    Text(String),
}

/// One step of the uplink: what to send, how many samples of audio that is, and whether it is
/// the last thing sent.
#[derive(Debug)]
pub struct UplinkStep {
    pub message: Outgoing,
    pub samples: usize,
    pub last: bool,
}

/// Streams audio as it comes, keeps an idle stream open, and closes it when the caller is gone.
pub fn uplink(event: UplinkEvent) -> (step: UplinkStep)
    ensures
        match event {
            UplinkEvent::Audio(frame) => {
                &&& step.message matches Outgoing::Binary(bytes) && bytes@ == bytes_of(frame@)
                &&& step.samples == frame@.len()
                &&& !step.last
            },
            UplinkEvent::KeepaliveDue => {
                &&& step.message matches Outgoing::Text(t) && t@ == "{\"type\":\"KeepAlive\"}"@
                &&& step.samples == 0
                &&& !step.last
            },
            UplinkEvent::MicClosed => {
                &&& step.message matches Outgoing::Text(t) && t@ == "{\"type\":\"CloseStream\"}"@
                &&& step.samples == 0
                &&& step.last
            },
        },
{
    match event {
        UplinkEvent::Audio(frame) => UplinkStep {
            message: Outgoing::Binary(pcm_bytes(frame.as_slice())),
            samples: frame.len(),
            last: false,
        },
        UplinkEvent::KeepaliveDue => UplinkStep {
            message: Outgoing::Text("{\"type\":\"KeepAlive\"}".to_owned()),
            samples: 0,
            last: false,
        },
        UplinkEvent::MicClosed => UplinkStep {
            message: Outgoing::Text("{\"type\":\"CloseStream\"}".to_owned()),
            samples: 0,
            last: true,
        },
    }
}

// ---- coming down

/// What the transcriber tells the rest of the pipeline.
#[derive(Debug)]
pub enum SttEvent {
    /// Caller started speaking (used for barge-in).
    SpeechStarted,
    /// Best guess so far for the current utterance. `lag` is `None` when it can't be measured.
    Interim { text: String, lag: Option<Span> },
    /// Stable transcript for a finished segment.
    Final { text: String, lag: Option<Span> },
    /// Caller stopped talking: the turn is over.
    UtteranceEnd,
}

/// An event, with its text as characters.
pub enum EventView {
    SpeechStarted,
    Interim { text: Seq<char>, lag: Option<Span> },
    Final { text: Seq<char>, lag: Option<Span> },
    UtteranceEnd,
}

impl View for SttEvent {
    type V = EventView;

    open spec fn view(&self) -> EventView {
        match *self {
            SttEvent::SpeechStarted => EventView::SpeechStarted,
            SttEvent::Interim { text, lag } => EventView::Interim { text: text@, lag },
            SttEvent::Final { text, lag } => EventView::Final { text: text@, lag },
            SttEvent::UtteranceEnd => EventView::UtteranceEnd,
        }
    }
}

impl Clone for SttEvent {
    fn clone(&self) -> (e: Self)
        ensures
            e@ == self@,
    {
        match self {
            SttEvent::SpeechStarted => SttEvent::SpeechStarted,
            SttEvent::Interim { text, lag } => SttEvent::Interim { text: text.clone(), lag: *lag },
            SttEvent::Final { text, lag } => SttEvent::Final { text: text.clone(), lag: *lag },
            SttEvent::UtteranceEnd => SttEvent::UtteranceEnd,
        }
    }
}

impl DeepView for SttEvent {
    type V = EventView;

    open spec fn deep_view(&self) -> EventView {
        self@
    }
}

/// A message of the service.
#[derive(Debug)]
pub enum Response {
    Results {
        channel: Channel,
        is_final: bool,
        speech_final: bool,
        /// Where this segment ends on the audio timeline, in samples. `None` where the message
        /// carries no usable timestamps.
        audio_end: Option<u64>,
    },
    SpeechStarted,
    UtteranceEnd,
    Other,
}

#[derive(Debug)]
pub struct Channel {
    pub alternatives: Vec<Alternative>,
}

#[derive(Debug)]
pub struct Alternative {
    pub transcript: String,
}

/// The transcript of a result: that of its first alternative.
pub open spec fn transcript_of(channel: Channel) -> Seq<char> {
    if channel.alternatives@.len() == 0 {
        seq![]
    } else {
        channel.alternatives@[0].transcript@
    }
}

/// What a message means for the pipeline. A result without words means nothing; one that the
/// service took for the end of speech also ends the turn.
pub open spec fn events_of(response: Response, lag: Option<Span>) -> Seq<EventView> {
    match response {
        Response::SpeechStarted => seq![EventView::SpeechStarted],
        Response::UtteranceEnd => seq![EventView::UtteranceEnd],
        Response::Other => seq![],
        Response::Results { channel, is_final, speech_final, .. } => {
            let text = transcript_of(channel);
            let first = if is_final {
                EventView::Final { text, lag }
            } else {
                EventView::Interim { text, lag }
            };
            if text.len() == 0 {
                seq![]
            } else if speech_final {
                seq![first, EventView::UtteranceEnd]
            } else {
                seq![first]
            }
        },
    }
}

/// How far a message trails the audio it describes: now, minus the moment that audio was sent.
pub open spec fn lag_of(response: Response, clock: ClockView, now: Moment) -> Option<Span> {
    match response {
        Response::Results { audio_end: Some(end), .. } => if end == 0 {
            None
        } else {
            match sent_moment(clock, end) {
                Some(at) => Some(time_between(at, now)),
                None => None,
            }
        },
        _ => None,
    }
}

impl Response {
    /// How far this result trails the audio it describes. `None` when the result carries no
    /// usable audio timestamps, or names audio that was not sent yet.
    pub fn lag(&self, clock: &AudioClock, now: Moment) -> (r: Option<Span>)
        ensures
            r == lag_of(*self, clock@, now),
    {
        match self {
            Response::Results { audio_end: Some(end), .. } => {
                if *end == 0 {
                    return None;
                }
                match clock.sent_at(*end) {
                    Some(at) => Some(now.since(at)),
                    None => None,
                }
            },
            _ => None,
        }
    }

    pub fn into_events(self, lag: Option<Span>) -> (events: Vec<SttEvent>)
        ensures
            events.deep_view() == events_of(self, lag),
    {
        let mut events: Vec<SttEvent> = Vec::new();
        match self {
            Response::SpeechStarted => {
                events.push(SttEvent::SpeechStarted);
            },
            Response::UtteranceEnd => {
                events.push(SttEvent::UtteranceEnd);
            },
            Response::Results { channel, is_final, speech_final, .. } => {
                let mut alternatives = channel.alternatives;
                let transcript = if alternatives.len() > 0 {
                    alternatives.swap_remove(0).transcript
                } else {
                    String::new()
                };
                if !transcript.as_str().is_empty() {
                    if is_final {
                        events.push(SttEvent::Final { text: transcript, lag });
                    } else {
                        events.push(SttEvent::Interim { text: transcript, lag });
                    }
                    // The service itself detected the end of speech.
                    if speech_final {
                        events.push(SttEvent::UtteranceEnd);
                    }
                }
            },
            Response::Other => {},
        }
        assert(events.deep_view() =~= events_of(self, lag));
        events
    }
}

/// One message of the service, dated against the audio it describes: the events to hand on.
pub fn downlink(response: Response, clock: &AudioClock, now: Moment) -> (events: Vec<SttEvent>)
    ensures
        events.deep_view() == events_of(response, lag_of(response, clock@, now)),
{
    let lag = response.lag(clock, now);
    response.into_events(lag)
}

// ---- the audio timeline

/// How much audio was sent, and when.
pub struct ClockView {
    /// All audio sent so far, in samples.
    pub sent: nat,
    /// `(samples sent after this frame, when it was sent)`, oldest first.
    pub marks: Seq<(u64, Moment)>,
    /// How far the audio reaches whose marks are gone, once any are.
    pub forgotten: Option<u64>,
}

/// Whether a point on the timeline lies in audio whose marks are gone.
pub open spec fn is_forgotten(clock: ClockView, audio_end: u64) -> bool {
    clock.forgotten matches Some(end) && audio_end <= end
}

/// When the audio that reaches `audio_end` samples was sent: with the first frame that reached
/// so far. Unknown for audio that was not sent yet, and for audio whose marks are gone.
pub open spec fn sent_moment(clock: ClockView, audio_end: u64) -> Option<Moment> {
    if is_forgotten(clock, audio_end) {
        None
    } else {
        first_reaching(clock.marks, audio_end)
    }
}

/// When the first of these marks that reaches `audio_end` samples was made.
pub open spec fn first_reaching(marks: Seq<(u64, Moment)>, audio_end: u64) -> Option<Moment>
    decreases marks.len(),
{
    if marks.len() == 0 {
        None
    } else if marks[0].0 >= audio_end {
        Some(marks[0].1)
    } else {
        first_reaching(marks.drop_first(), audio_end)
    }
}

/// The timeline after `samples` more samples were sent at `at`: only the latest marks are kept.
/// Counting stops at the largest count there is.
pub open spec fn after_sending(clock: ClockView, samples: u64, at: Moment) -> ClockView {
    let sent = if clock.sent + samples <= u64::MAX {
        clock.sent + samples as nat
    } else {
        u64::MAX as nat
    };
    let marks = clock.marks.push((sent as u64, at));
    ClockView {
        sent,
        marks: if marks.len() > MAX_MARKS {
            marks.drop_first()
        } else {
            marks
        },
        forgotten: if marks.len() > MAX_MARKS {
            Some(marks[0].0)
        } else {
            clock.forgotten
        },
    }
}

/// The marks run forward, from what is forgotten to the end of the audio sent.
pub open spec fn timeline_ok(clock: ClockView) -> bool {
    &&& clock.sent <= u64::MAX
    &&& clock.marks.len() <= MAX_MARKS
    &&& clock.marks.len() == 0 ==> clock.sent == 0 && clock.forgotten is None
    &&& forall|i: int|
        0 <= i < clock.marks.len() ==> (clock.forgotten matches Some(end) ==> end <= (
        #[trigger] clock.marks[i]).0)
    &&& clock.marks.len() > 0 ==> clock.marks.last().0 == clock.sent
    &&& forall|i: int, j: int|
        0 <= i <= j < clock.marks.len() ==> (#[trigger] clock.marks[i]).0 <= (
        #[trigger] clock.marks[j]).0
}

/// When each moment of audio was handed to the service.
///
/// Audio is not always sent in real time — the browser can deliver a burst of buffered packets —
/// so lag cannot be inferred from elapsed time alone. This keeps a mark per frame and looks up
/// the instant a given point on the audio timeline went out.
pub struct AudioClock {
    sent: u64,
    marks: VecDeque<(u64, Moment)>,
    forgotten: Option<u64>,
}

impl View for AudioClock {
    type V = ClockView;

    closed spec fn view(&self) -> ClockView {
        ClockView {
            sent: self.sent as nat,
            marks: self.marks@,
            forgotten: self.forgotten,
        }
    }
}

impl Default for AudioClock {
    fn default() -> (c: Self)
        ensures
            c@ == (ClockView { sent: 0, marks: seq![], forgotten: None }),
            timeline_ok(c@),
    {
        AudioClock { sent: 0, marks: VecDeque::new(), forgotten: None }
    }
}

impl AudioClock {
    /// `samples` samples were handed over at `at`.
    pub fn sent(&mut self, samples: u64, at: Moment)
        requires
            timeline_ok(old(self)@),
        ensures
            timeline_ok(final(self)@),
            final(self)@ == after_sending(old(self)@, samples, at),
    {
        let ghost before = self.marks@;
        self.sent = self.sent.saturating_add(samples);
        self.marks.push_back((self.sent, at));
        assert(self.marks@ == before.push((self.sent, at)));
        if self.marks.len() > MAX_MARKS {
            if let Some(mark) = self.marks.pop_front() {
                self.forgotten = Some(mark.0);
            }
            assert(self.marks@ =~= before.push((self.sent, at)).drop_first());
        }
    }

    /// The instant the audio reaching `audio_end` samples was sent, or `None` if the service
    /// referred to audio that was not sent yet, or so long ago that its mark is gone.
    pub fn sent_at(&self, audio_end: u64) -> (r: Option<Moment>)
        ensures
            r == sent_moment(self@, audio_end),
    {
        if let Some(end) = self.forgotten {
            if audio_end <= end {
                return None;
            }
        }
        let mut i: usize = 0;
        assert(self.marks@.skip(0) =~= self.marks@);
        while i < self.marks.len()
            invariant
                i <= self.marks@.len(),
                !is_forgotten(self@, audio_end),
                first_reaching(self.marks@, audio_end) == first_reaching(
                    self.marks@.skip(i as int),
                    audio_end,
                ),
            decreases self.marks@.len() - i,
        {
            let mark = self.marks[i];
            if mark.0 >= audio_end {
                return Some(mark.1);
            }
            assert(self.marks@.skip(i as int).drop_first() =~= self.marks@.skip(i + 1));
            i = i + 1;
        }
        None
    }
}

proof fn lemma_first_mark(marks: Seq<(u64, Moment)>, audio_end: u64, i: int)
    requires
        0 <= i < marks.len(),
        marks[i].0 >= audio_end,
        forall|j: int| 0 <= j < i ==> (#[trigger] marks[j]).0 < audio_end,
    ensures
        first_reaching(marks, audio_end) == Some(marks[i].1),
    decreases i,
{
    if i > 0 {
        assert(marks[0].0 < audio_end);
        assert(marks.drop_first()[i - 1] == marks[i]);
        assert forall|j: int| 0 <= j < i - 1 implies (#[trigger] marks.drop_first()[j]).0
            < audio_end by {
            assert(marks.drop_first()[j] == marks[j + 1]);
        }
        lemma_first_mark(marks.drop_first(), audio_end, i - 1);
    }
}

proof fn lemma_no_mark(marks: Seq<(u64, Moment)>, audio_end: u64)
    requires
        forall|j: int| 0 <= j < marks.len() ==> (#[trigger] marks[j]).0 < audio_end,
    ensures
        first_reaching(marks, audio_end) is None,
    decreases marks.len(),
{
    if marks.len() > 0 {
        assert(marks[0].0 < audio_end);
        assert forall|j: int| 0 <= j < marks.drop_first().len() implies (
        #[trigger] marks.drop_first()[j]).0 < audio_end by {
            assert(marks.drop_first()[j] == marks[j + 1]);
        }
        lemma_no_mark(marks.drop_first(), audio_end);
    }
}

/// The mark that dates `audio_end`, where one does.
proof fn lemma_dating_mark(marks: Seq<(u64, Moment)>, audio_end: u64) -> (i: int)
    requires
        first_reaching(marks, audio_end) is Some,
    ensures
        0 <= i < marks.len(),
        marks[i].0 >= audio_end,
        forall|j: int| 0 <= j < i ==> (#[trigger] marks[j]).0 < audio_end,
        first_reaching(marks, audio_end) == Some(marks[i].1),
    decreases marks.len(),
{
    if marks[0].0 >= audio_end {
        0
    } else {
        let i = lemma_dating_mark(marks.drop_first(), audio_end);
        assert(marks.drop_first()[i] == marks[i + 1]);
        assert forall|j: int| 0 <= j < i + 1 implies (#[trigger] marks[j]).0 < audio_end by {
            if j > 0 {
                assert(marks.drop_first()[j - 1] == marks[j]);
            }
        }
        i + 1
    }
}

/// Audio that was not sent has no date, rather than a wrong one, and neither has audio whose mark
/// is gone; all other audio has one.
pub proof fn law_only_audio_that_was_sent_is_dated(clock: ClockView, audio_end: u64)
    requires
        timeline_ok(clock),
        clock.marks.len() > 0,
    ensures
        sent_moment(clock, audio_end) is None <==> audio_end > clock.sent || is_forgotten(
            clock,
            audio_end,
        ),
{
    if audio_end > clock.sent {
        lemma_no_mark(clock.marks, audio_end);
    } else if first_reaching(clock.marks, audio_end) is None {
        lemma_undated(clock.marks, audio_end);
        assert(clock.marks[clock.marks.len() - 1].0 < audio_end);
    }
}

proof fn lemma_undated(marks: Seq<(u64, Moment)>, audio_end: u64)
    requires
        first_reaching(marks, audio_end) is None,
    ensures
        forall|j: int| 0 <= j < marks.len() ==> (#[trigger] marks[j]).0 < audio_end,
    decreases marks.len(),
{
    if marks.len() > 0 {
        lemma_undated(marks.drop_first(), audio_end);
        assert forall|j: int| 0 <= j < marks.len() implies (#[trigger] marks[j]).0
            < audio_end by {
            if j > 0 {
                assert(marks.drop_first()[j - 1] == marks[j]);
            }
        }
    }
}

/// Audio is dated by the moment it was handed over, however much else goes with it: a burst does
/// not change the date of any part of it.
pub proof fn law_audio_is_dated_when_it_is_sent(
    clock: ClockView,
    samples: u64,
    at: Moment,
    audio_end: u64,
)
    requires
        timeline_ok(clock),
        clock.sent < audio_end <= clock.sent + samples <= u64::MAX,
    ensures
        sent_moment(after_sending(clock, samples, at), audio_end) == Some(at),
{
    let after = after_sending(clock, samples, at);
    let marks = after.marks;
    let last = marks.len() - 1;
    let pushed = clock.marks.push(((clock.sent + samples) as u64, at));
    let gone: int = if pushed.len() > MAX_MARKS {
        1
    } else {
        0
    };
    assert forall|j: int| 0 <= j < last implies (#[trigger] marks[j]).0 < audio_end by {
        assert(marks[j] == clock.marks[j + gone]);
        assert(clock.marks[j + gone].0 <= clock.marks[clock.marks.len() - 1].0);
    }
    lemma_first_mark(marks, audio_end, last);
    if clock.marks.len() > 0 {
        assert(clock.marks[0].0 <= clock.marks[clock.marks.len() - 1].0);
    }
    assert(!is_forgotten(after, audio_end));
}

/// Sending more never moves the date of earlier audio: it stays as it is, or is forgotten.
pub proof fn law_later_audio_does_not_move_earlier_dates(
    clock: ClockView,
    samples: u64,
    at: Moment,
    audio_end: u64,
)
    requires
        timeline_ok(clock),
        clock.marks.len() > 0,
        audio_end <= clock.sent,
    ensures
        ({
            let after = after_sending(clock, samples, at);
            sent_moment(after, audio_end) == if is_forgotten(after, audio_end) {
                None
            } else {
                sent_moment(clock, audio_end)
            }
        }),
        clock.marks.len() < MAX_MARKS ==> sent_moment(after_sending(clock, samples, at), audio_end)
            == sent_moment(clock, audio_end),
{
    let after = after_sending(clock, samples, at);
    if !is_forgotten(after, audio_end) {
        let gone: int = if clock.marks.len() < MAX_MARKS {
            0
        } else {
            1
        };
        assert(!is_forgotten(clock, audio_end)) by {
            assert(clock.forgotten matches Some(end) ==> end <= clock.marks[0].0);
        }
        law_only_audio_that_was_sent_is_dated(clock, audio_end);
        let i = lemma_dating_mark(clock.marks, audio_end);
        assert(after.marks[i - gone] == clock.marks[i]);
        assert forall|j: int| 0 <= j < i - gone implies (#[trigger] after.marks[j]).0
            < audio_end by {
            assert(after.marks[j] == clock.marks[j + gone]);
        }
        lemma_first_mark(after.marks, audio_end, i - gone);
    }
}

/// Where frames were sent one after the other, later audio is never dated before earlier audio.
pub proof fn law_dates_follow_the_audio(clock: ClockView, earlier: u64, later: u64)
    requires
        timeline_ok(clock),
        forall|i: int, j: int|
            0 <= i <= j < clock.marks.len() ==> (#[trigger] clock.marks[i]).1.nanos <= (
            #[trigger] clock.marks[j]).1.nanos,
        earlier <= later,
        sent_moment(clock, later) is Some,
    ensures
        match sent_moment(clock, earlier) {
            Some(at) => at.nanos <= sent_moment(clock, later)->0.nanos,
            None => is_forgotten(clock, earlier),
        },
{
    let j = lemma_dating_mark(clock.marks, later);
    law_only_audio_that_was_sent_is_dated(clock, earlier);
    law_only_audio_that_was_sent_is_dated(clock, later);
    if !is_forgotten(clock, earlier) {
        let i = lemma_dating_mark(clock.marks, earlier);
        if i > j {
            assert(clock.marks[j].0 < earlier);
        }
    }
}

// ---- what holds of every message and every frame

/// A result with words ends the turn exactly where the service flagged it as the end of speech,
/// final or not. Its other event comes first, carries its words and its lag as they are, and is a
/// stable transcript exactly where the result is flagged final. A result without words brings
/// nothing, and only results bring words.
pub proof fn law_results_mean_what_they_are_flagged(
    response: Response,
    lag: Option<Span>,
    events: Vec<SttEvent>,
)
    requires
        call_ensures(Response::into_events, (response, lag), events),
    ensures
        match response {
            Response::Results { channel, is_final, speech_final, .. } => {
                let heard = channel.alternatives@.len() > 0
                    && channel.alternatives@[0].transcript@.len() > 0;
                &&& !heard ==> events@.len() == 0
                &&& heard ==> {
                    let words = channel.alternatives@[0].transcript@;
                    &&& events@.len() == if speech_final {
                        2nat
                    } else {
                        1nat
                    }
                    &&& speech_final ==> events@[1] is UtteranceEnd
                    &&& is_final ==> (events@[0] matches SttEvent::Final { text, lag: l } && text@
                        == words && l == lag)
                    &&& !is_final ==> (events@[0] matches SttEvent::Interim { text, lag: l }
                        && text@ == words && l == lag)
                }
            },
            Response::SpeechStarted => events@.len() == 1 && events@[0] is SpeechStarted,
            Response::UtteranceEnd => events@.len() == 1 && events@[0] is UtteranceEnd,
            Response::Other => events@.len() == 0,
        },
{
    assert(events.deep_view().len() == events@.len());
    if events@.len() > 0 {
        assert(events.deep_view()[0] == events@[0]@);
    }
    if events@.len() > 1 {
        assert(events.deep_view()[1] == events@[1]@);
    }
}

/// No event ever carries an empty text.
pub proof fn law_events_carry_words(response: Response, lag: Option<Span>, events: Vec<SttEvent>)
    requires
        call_ensures(Response::into_events, (response, lag), events),
    ensures
        forall|i: int|
            0 <= i < events@.len() ==> match #[trigger] events@[i] {
                SttEvent::Interim { text, .. } => text@.len() > 0,
                SttEvent::Final { text, .. } => text@.len() > 0,
                _ => true,
            },
{
    law_results_mean_what_they_are_flagged(response, lag, events);
}

/// A result trails its audio by the time since that audio was sent. Where it names no audio, or
/// audio that has no date, its lag cannot be measured; and what is no result has none.
pub proof fn law_lag_runs_from_when_the_audio_was_sent(
    response: Response,
    clock: AudioClock,
    now: Moment,
    lag: Option<Span>,
    sent: Option<Moment>,
)
    requires
        call_ensures(Response::lag, (&response, &clock, now), lag),
        response matches Response::Results { audio_end: Some(end), .. } ==> call_ensures(
            AudioClock::sent_at,
            (&clock, end),
            sent,
        ),
    ensures
        match response {
            Response::Results { audio_end: Some(end), .. } => match sent {
                Some(at) => if end == 0 {
                    lag is None
                } else {
                    lag is Some && lag->0.nanos == if now.nanos >= at.nanos {
                        now.nanos - at.nanos
                    } else {
                        0
                    }
                },
                None => lag is None,
            },
            _ => lag is None,
        },
{
}

/// A message is handed on with the lag that is measured for it, and no other.
pub proof fn law_messages_are_dated_before_they_are_handed_on(
    response: Response,
    clock: AudioClock,
    now: Moment,
    lag: Option<Span>,
    expected: Vec<SttEvent>,
    events: Vec<SttEvent>,
)
    requires
        call_ensures(downlink, (response, &clock, now), events),
        call_ensures(Response::lag, (&response, &clock, now), lag),
        call_ensures(Response::into_events, (response, lag), expected),
    ensures
        events.deep_view() == expected.deep_view(),
{
}

/// What is too low becomes the lowest that the service accepts, what is too high the highest, and
/// everything else stays as the page sent it.
pub proof fn law_clamping_takes_the_nearest(e: Endpointing, r: Endpointing)
    requires
        call_ensures(Endpointing::clamped, (e,), r),
    ensures
        e.endpointing < 10 ==> r.endpointing == 10,
        10 <= e.endpointing <= 5_000 ==> r.endpointing == e.endpointing,
        e.endpointing > 5_000 ==> r.endpointing == 5_000,
        e.utterance_end_ms < 100 ==> r.utterance_end_ms == 100,
        100 <= e.utterance_end_ms <= 10_000 ==> r.utterance_end_ms == e.utterance_end_ms,
        e.utterance_end_ms > 10_000 ==> r.utterance_end_ms == 10_000,
{
}

/// A stream is opened at the endpoint it was given, for the language it was given and with the
/// clamped pauses; nothing else of what is asked for ever changes.
pub proof fn law_a_stream_asks_for_what_was_chosen(
    url: &str,
    e: Endpointing,
    language: &str,
    clamped: Endpointing,
    r: String,
)
    requires
        call_ensures(listen_url, (url, e, language), r),
        call_ensures(Endpointing::clamped, (e,), clamped),
    ensures
        r@ == url@ + "?model="@ + "nova-3"@ + "&language="@ + language@
            + "&encoding=linear16&sample_rate=48000&channels=1&interim_results=true&smart_format=true&punctuate=true&endpointing="@
            + decimal_text(clamped.endpointing as nat) + "&utterance_end_ms="@ + decimal_text(
            clamped.utterance_end_ms as nat,
        ) + "&vad_events=true"@,
{
}

/// A stream is opened with the key it was given.
pub proof fn law_a_stream_shows_its_key(api_key: &str, r: String)
    requires
        call_ensures(authorization, (api_key,), r),
    ensures
        r@ == "Token "@ + api_key@,
{
}

/// All audio goes up as it is, sample for sample and low byte first, and is counted; an idle
/// stream is kept open, and only the caller's leaving closes it.
pub proof fn law_everything_heard_goes_up(event: UplinkEvent, step: UplinkStep)
    requires
        call_ensures(uplink, (event,), step),
    ensures
        step.last <==> event is MicClosed,
        match event {
            UplinkEvent::Audio(frame) => {
                &&& step.samples == frame@.len()
                &&& step.message is Binary
                &&& samples_of(step.message->Binary_0@) == frame@
                &&& step.message->Binary_0@.len() == 2 * frame@.len()
            },
            UplinkEvent::KeepaliveDue => step.samples == 0 && step.message is Text
                && step.message->Text_0@ == "{\"type\":\"KeepAlive\"}"@,
            UplinkEvent::MicClosed => step.samples == 0 && step.message is Text
                && step.message->Text_0@ == "{\"type\":\"CloseStream\"}"@,
        },
{
    if let UplinkEvent::Audio(frame) = event {
        law_samples_survive_their_bytes(frame@);
    }
}

/// An idle stream is pinged well before the service drops it, after about 10 seconds.
pub proof fn law_an_idle_stream_is_pinged_in_time()
    ensures
        0 < 2 * KEEPALIVE_SECS < 10,
{
}

/// How much audio these frames are together.
pub open spec fn audio_total(sends: Seq<(u64, Moment)>) -> nat
    decreases sends.len(),
{
    if sends.len() == 0 {
        0
    } else {
        audio_total(sends.drop_last()) + sends.last().0 as nat
    }
}

/// The timeline of a call after a run of frames, each with its samples and its moment.
pub open spec fn clock_over(sends: Seq<(u64, Moment)>) -> ClockView
    decreases sends.len(),
{
    if sends.len() == 0 {
        ClockView { sent: 0, marks: seq![], forgotten: None }
    } else {
        after_sending(clock_over(sends.drop_last()), sends.last().0, sends.last().1)
    }
}

/// How many of the oldest marks are gone after so many frames.
spec fn marks_gone(n: nat) -> int {
    if n > 6_000 {
        n - 6_000
    } else {
        0
    }
}

proof fn lemma_clock_over(sends: Seq<(u64, Moment)>)
    requires
        audio_total(sends) <= u64::MAX,
    ensures
        ({
            let clock = clock_over(sends);
            let gone = marks_gone(sends.len());
            &&& clock.sent == audio_total(sends)
            &&& clock.marks.len() == sends.len() - gone
            &&& forall|k: int|
                0 <= k < clock.marks.len() ==> #[trigger] clock.marks[k] == (
                    audio_total(sends.take(gone + k + 1)) as u64,
                    sends[gone + k].1,
                )
            &&& clock.forgotten == if gone > 0 {
                Some(audio_total(sends.take(gone)) as u64)
            } else {
                None
            }
        }),
    decreases sends.len(),
{
    if sends.len() > 0 {
        let before = sends.drop_last();
        lemma_clock_over(before);
        let old_clock = clock_over(before);
        let clock = clock_over(sends);
        let gone = marks_gone(sends.len());
        let old_gone = marks_gone(before.len());
        assert(sends.take(sends.len() as int) =~= sends);
        assert forall|k: int| 0 <= k < clock.marks.len() implies #[trigger] clock.marks[k] == (
            audio_total(sends.take(gone + k + 1)) as u64,
            sends[gone + k].1,
        ) by {
            let m = gone + k;
            if m < before.len() {
                assert(clock.marks[k] == old_clock.marks[m - old_gone]);
                assert(before.take(m + 1) =~= sends.take(m + 1));
            } else {
                assert(sends.take(m + 1) =~= sends);
            }
        }
        if gone > 0 {
            assert(old_clock.marks[0] == (
                audio_total(before.take(old_gone + 1)) as u64,
                before[old_gone].1,
            ));
            assert(before.take(gone) =~= sends.take(gone));
        }
    }
}

proof fn lemma_audio_total_grows(sends: Seq<(u64, Moment)>, i: int, j: int)
    requires
        0 <= i <= j <= sends.len(),
    ensures
        audio_total(sends.take(i)) <= audio_total(sends.take(j)),
    decreases j - i,
{
    if i < j {
        lemma_audio_total_grows(sends, i, j - 1);
        assert(sends.take(j).drop_last() =~= sends.take(j - 1));
    }
}

/// However frames are sent, in whatever bursts, the audio of each of the last 6000 is dated by
/// the moment that very frame was sent, and the audio of those before them, like audio that was
/// not sent, has no date.
pub proof fn law_every_frame_keeps_its_own_date(
    sends: Seq<(u64, Moment)>,
    i: int,
    audio_end: u64,
)
    requires
        audio_total(sends) <= u64::MAX,
        0 <= i < sends.len(),
    ensures
        audio_total(sends.take(i)) < audio_end <= audio_total(sends.take(i + 1)) ==> sent_moment(
            clock_over(sends),
            audio_end,
        ) == if i >= sends.len() - 6_000 {
            Some(sends[i].1)
        } else {
            None
        },
        audio_end > audio_total(sends) ==> sent_moment(clock_over(sends), audio_end) is None,
{
    lemma_clock_over(sends);
    let clock = clock_over(sends);
    let gone = marks_gone(sends.len());
    assert(sends.take(sends.len() as int) =~= sends);
    assert forall|k: int| 0 <= k <= sends.len() implies audio_total(#[trigger] sends.take(k))
        <= audio_total(sends) by {
        lemma_audio_total_grows(sends, k, sends.len() as int);
    }
    if audio_end > audio_total(sends) {
        assert forall|k: int| 0 <= k < clock.marks.len() implies (#[trigger] clock.marks[k]).0
            < audio_end by {
            assert(audio_total(sends.take(gone + k + 1)) <= audio_total(sends));
        }
        lemma_no_mark(clock.marks, audio_end);
    }
    if audio_total(sends.take(i)) < audio_end <= audio_total(sends.take(i + 1)) {
        assert(audio_total(sends.take(i + 1)) <= audio_total(sends));
        if i >= gone {
            let at = i - gone;
            assert(clock.marks[at].0 >= audio_end);
            assert forall|k: int| 0 <= k < at implies (#[trigger] clock.marks[k]).0
                < audio_end by {
                lemma_audio_total_grows(sends, gone + k + 1, i);
            }
            lemma_first_mark(clock.marks, audio_end, at);
            lemma_audio_total_grows(sends, gone, i);
        } else {
            lemma_audio_total_grows(sends, i + 1, gone);
            assert(audio_total(sends.take(gone)) <= audio_total(sends));
        }
    }
}

/// Audio that is handed over is dated by the moment it is; audio before it keeps its date, unless
/// more than 6000 frames are marked by then and its mark was the oldest; and audio beyond it has
/// none.
pub proof fn law_sending_dates_the_audio(
    clock: &mut AudioClock,
    samples: u64,
    at: Moment,
    before: AudioClock,
    after: AudioClock,
    audio_end: u64,
    earlier: Option<Moment>,
    r: Option<Moment>,
)
    requires
        call_ensures(AudioClock::sent, (clock, samples, at), ()),
        before@ == old(clock)@,
        after@ == final(clock)@,
        timeline_ok(before@),
        call_ensures(AudioClock::sent_at, (&before, audio_end), earlier),
        call_ensures(AudioClock::sent_at, (&after, audio_end), r),
        before@.sent + samples <= u64::MAX,
    ensures
        after@.sent == before@.sent + samples,
        before@.sent < audio_end <= before@.sent + samples ==> r == Some(at),
        audio_end > before@.sent + samples ==> r is None,
        audio_end <= before@.sent && before@.marks.len() > 0 && before@.marks.len() < 6_000 ==> r
            == earlier,
        audio_end <= before@.sent && before@.marks.len() > 0 ==> r == earlier || (r is None
            && audio_end <= before@.marks[0].0),
        after@.marks.len() == if before@.marks.len() < 6_000 {
            before@.marks.len() + 1
        } else {
            6_000
        },
{
    if before@.sent < audio_end <= before@.sent + samples {
        law_audio_is_dated_when_it_is_sent(before@, samples, at, audio_end);
    } else if audio_end > before@.sent + samples {
        law_only_audio_that_was_sent_is_dated(after@, audio_end);
    } else if before@.marks.len() > 0 {
        law_later_audio_does_not_move_earlier_dates(before@, samples, at, audio_end);
    }
}

} // verus!
