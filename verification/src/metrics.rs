//! Latency accounting for the services in the pipeline.
//!
//! Only service latency is tracked — how long the transcriber, the model and the voice take —
//! never how long the caller spoke. Every report is returned as the line to log.

use vstd::prelude::*;
use vstd::string::*;

use crate::text::{decimal, decimal_text, join, joined, opt_text, texts};
use crate::time::{time_between, Moment, Span, MAX_SPAN_NANOS};

verus! {

/// What is known about the turn in progress.
pub struct Figures {
    /// Transcription lag of each interim result this turn, where it could be measured.
    pub partials: Seq<Span>,
    /// How many interim results could not be measured.
    pub partials_unknown: nat,
    /// When the last final transcript arrived, and how far it trailed the audio.
    pub last_final: Option<(Moment, Option<Span>)>,
    /// When the caller's turn ended, for as long as the caller waits to hear the reply.
    pub turn_ended: Option<Moment>,
    /// When the reply was asked for: the clock the model is measured against, heard or not.
    pub reply_started: Option<Moment>,
    /// First token from the language model, relative to the turn ending.
    pub llm_first_token: Option<Span>,
}

/// Nothing known yet.
pub open spec fn no_figures() -> Figures {
    Figures {
        partials: seq![],
        partials_unknown: 0,
        last_final: None,
        turn_ended: None,
        reply_started: None,
        llm_first_token: None,
    }
}

/// What is known after one more interim result.
pub open spec fn after_interim(f: Figures, lag: Option<Span>) -> Figures {
    match lag {
        Some(lag) => Figures { partials: f.partials.push(lag), ..f },
        None => Figures { partials_unknown: f.partials_unknown + 1, ..f },
    }
}

/// What is known once the reply's first token is in.
pub open spec fn after_first_token(f: Figures, now: Moment) -> Figures {
    Figures {
        llm_first_token: match f.reply_started {
            Some(start) => Some(time_between(start, now)),
            None => None,
        },
        ..f
    }
}

/// What is known once the caller can hear the reply.
pub open spec fn after_audible(f: Figures) -> Figures {
    Figures { turn_ended: None, ..f }
}

/// What is known once the caller talked over the agent.
pub open spec fn after_interruption(f: Figures) -> Figures {
    Figures { turn_ended: None, reply_started: None, llm_first_token: None, ..f }
}

/// What is known once a turn ended: nothing but when, and both clocks start from there.
pub open spec fn after_turn(now: Moment) -> Figures {
    Figures { turn_ended: Some(now), reply_started: Some(now), ..no_figures() }
}

/// A length of time as it is reported.
pub open spec fn ms_text(d: Span) -> Seq<char> {
    decimal_text((d.nanos / 1_000_000) as nat) + " ms"@
}

/// All of these together.
pub open spec fn total(spans: Seq<Span>) -> nat
    decreases spans.len(),
{
    if spans.len() == 0 {
        0
    } else {
        total(spans.drop_last()) + spans.last().nanos as nat
    }
}

/// The longest of these.
pub open spec fn longest(spans: Seq<Span>) -> nat
    decreases spans.len(),
{
    if spans.len() == 0 {
        0
    } else {
        let rest = longest(spans.drop_last());
        if spans.last().nanos >= rest {
            spans.last().nanos as nat
        } else {
            rest
        }
    }
}

/// Whether a turn can be reported: its partials can be counted in 32 bits and add up to a time,
/// and the lag of the last final is a time.
pub open spec fn reportable(f: Figures) -> bool {
    &&& f.partials.len() <= u32::MAX
    &&& total(f.partials) <= MAX_SPAN_NANOS
    &&& f.last_final matches Some((_, Some(lag))) ==> lag.nanos <= MAX_SPAN_NANOS
}

/// How long after the caller stopped talking the turn was declared over, for a final transcript
/// that came at `at` and trailed the audio by `lag`.
pub open spec fn endpoint_delay(at: Moment, lag: Span, now: Moment) -> Span {
    if now.nanos + lag.nanos >= at.nanos {
        Span { nanos: (now.nanos + lag.nanos - at.nanos) as u128 }
    } else {
        Span { nanos: 0 }
    }
}

/// What a report says of the measured partials.
pub open spec fn partials_part(f: Figures) -> Seq<Seq<char>> {
    if f.partials.len() == 0 {
        seq![]
    } else {
        seq![
            "partial avg "@ + ms_text(
                Span { nanos: (total(f.partials) / f.partials.len()) as u128 },
            ) + " (max "@ + ms_text(Span { nanos: longest(f.partials) as u128 }) + ", n="@
                + decimal_text(f.partials.len()) + ")"@,
        ]
    }
}

/// What a report says of the partials that could not be measured.
pub open spec fn unmeasured_part(f: Figures) -> Seq<Seq<char>> {
    if f.partials_unknown == 0 {
        seq![]
    } else {
        seq!["partial unmeasured n="@ + decimal_text(f.partials_unknown)]
    }
}

/// What a report says of the last final transcript.
pub open spec fn final_part(f: Figures, now: Moment) -> Seq<Seq<char>> {
    match f.last_final {
        Some((at, Some(lag))) => seq![
            "final "@ + ms_text(lag),
            "endpoint "@ + ms_text(endpoint_delay(at, lag, now)),
        ],
        Some((_, None)) => seq!["final unmeasured"@],
        None => seq![],
    }
}

/// The transcriber's latency for a turn, as it is reported.
pub open spec fn transcriber_report(f: Figures, now: Moment) -> Option<Seq<char>> {
    let parts = partials_part(f) + unmeasured_part(f) + final_part(f, now);
    if parts.len() == 0 {
        None
    } else {
        Some("deepgram latency: "@ + joined(parts, " | "@))
    }
}

/// What the model cost end to end, as it is reported.
pub open spec fn model_report(f: Figures, now: Moment) -> Option<Seq<char>> {
    match f.reply_started {
        None => None,
        Some(start) => {
            let full = "full reply "@ + ms_text(time_between(start, now));
            Some(
                "llm latency: "@ + match f.llm_first_token {
                    Some(first) => "first token "@ + ms_text(first) + " | "@ + full,
                    None => full,
                },
            )
        },
    }
}

/// The time from the caller falling silent to hearing the agent, as it is reported.
pub open spec fn response_report(f: Figures, now: Moment) -> Option<Seq<char>> {
    match f.turn_ended {
        None => None,
        Some(end) => {
            let overall = "overall "@ + ms_text(time_between(end, now));
            Some(
                "response metrics: "@ + match f.llm_first_token {
                    Some(first) => overall + " | "@ + ("llm first token "@ + ms_text(first)),
                    None => overall,
                },
            )
        },
    }
}

pub struct TurnMetrics {
    partials: Vec<Span>,
    partials_unknown: u32,
    last_final: Option<(Moment, Option<Span>)>,
    turn_ended: Option<Moment>,
    reply_started: Option<Moment>,
    llm_first_token: Option<Span>,
}

impl View for TurnMetrics {
    type V = Figures;

    closed spec fn view(&self) -> Figures {
        Figures {
            partials: self.partials@,
            partials_unknown: self.partials_unknown as nat,
            last_final: self.last_final,
            turn_ended: self.turn_ended,
            reply_started: self.reply_started,
            llm_first_token: self.llm_first_token,
        }
    }
}

impl Default for TurnMetrics {
    fn default() -> (m: Self)
        ensures
            m@ == no_figures(),
    {
        TurnMetrics {
            partials: Vec::new(),
            partials_unknown: 0,
            last_final: None,
            turn_ended: None,
            reply_started: None,
            llm_first_token: None,
        }
    }
}

impl TurnMetrics {
    /// Whether one more interim result with this lag can be counted.
    pub fn can_count(&self, lag: Option<Span>) -> (b: bool)
        ensures
            b == (lag is None ==> self@.partials_unknown < u32::MAX),
    {
        lag.is_some() || self.partials_unknown < u32::MAX
    }

    /// Whether a turn that ends now can be reported.
    pub fn can_report(&self) -> (b: bool)
        ensures
            b == reportable(self@),
    {
        if self.partials.len() as u64 > u32::MAX as u64 || sum_of(&self.partials).is_none() {
            return false;
        }
        match self.last_final {
            Some((_, Some(lag))) => lag.nanos <= MAX_SPAN_NANOS,
            _ => true,
        }
    }

    /// An interim result arrived.
    pub fn interim(&mut self, lag: Option<Span>)
        requires
            lag is None ==> old(self)@.partials_unknown < u32::MAX,
        ensures
            final(self)@ == after_interim(old(self)@, lag),
    {
        match lag {
            Some(lag) => {
                self.partials.push(lag);
            },
            None => {
                self.partials_unknown = self.partials_unknown + 1;
            },
        }
    }

    /// A final transcript arrived.
    pub fn transcript_final(&mut self, lag: Option<Span>, now: Moment)
        ensures
            final(self)@ == (Figures { last_final: Some((now, lag)), ..old(self)@ }),
    {
        self.last_final = Some((now, lag));
    }

    /// First token of the reply.
    pub fn llm_first_token(&mut self, now: Moment)
        ensures
            final(self)@ == after_first_token(old(self)@, now),
    {
        self.llm_first_token = match self.reply_started {
            Some(start) => Some(now.since(start)),
            None => None,
        };
    }

    /// The reply finished streaming. Reports what the model cost end to end.
    pub fn llm_done(&mut self, now: Moment) -> (line: Option<String>)
        ensures
            final(self)@ == old(self)@,
            opt_text(line) == model_report(old(self)@, now),
    {
        let start = match self.reply_started {
            Some(start) => start,
            None => return None,
        };
        let mut line = "llm latency: ".to_owned();
        if let Some(first_token) = self.llm_first_token {
            line.append("first token ");
            line.append(ms(first_token).as_str());
            line.append(" | ");
        }
        line.append("full reply ");
        line.append(ms(now.since(start)).as_str());
        proof {
            let full = "full reply "@ + ms_text(time_between(start, now));
            match self.llm_first_token {
                Some(first) => {
                    assert(line@ =~= "llm latency: "@ + ("first token "@ + ms_text(first) + " | "@
                        + full));
                },
                None => {
                    assert(line@ =~= "llm latency: "@ + full);
                },
            }
        }
        Some(line)
    }

    /// First reply audio handed to the caller. Reports the end-to-end latency: from the caller
    /// falling silent to hearing the agent. Later frames of the same turn do nothing.
    pub fn response_audible(&mut self, now: Moment) -> (line: Option<String>)
        ensures
            final(self)@ == after_audible(old(self)@),
            opt_text(line) == response_report(old(self)@, now),
    {
        let end = match self.turn_ended.take() {
            Some(end) => end,
            None => return None,
        };
        let mut line = "response metrics: ".to_owned();
        line.append("overall ");
        line.append(ms(now.since(end)).as_str());
        if let Some(first_token) = self.llm_first_token {
            line.append(" | ");
            line.append("llm first token ");
            line.append(ms(first_token).as_str());
        }
        proof {
            let overall = "overall "@ + ms_text(time_between(end, now));
            match self.llm_first_token {
                Some(first) => {
                    assert(line@ =~= "response metrics: "@ + (overall + " | "@ + (
                    "llm first token "@ + ms_text(first))));
                },
                None => {
                    assert(line@ =~= "response metrics: "@ + overall);
                },
            }
        }
        Some(line)
    }

    /// The caller talked over the agent. `dropped` is how much queued speech was thrown away.
    pub fn interrupted(&mut self, dropped: Span) -> (line: String)
        ensures
            final(self)@ == after_interruption(old(self)@),
            line@ == "barge-in: dropped "@ + ms_text(dropped) + " of queued speech"@,
    {
        self.turn_ended = None;
        self.reply_started = None;
        self.llm_first_token = None;
        let mut line = "barge-in: dropped ".to_owned();
        line.append(ms(dropped).as_str());
        line.append(" of queued speech");
        line
    }

    /// Reports the transcriber's latency for the turn that just ended, and starts the reply
    /// clock.
    pub fn utterance_end(&mut self, now: Moment) -> (line: Option<String>)
        requires
            reportable(old(self)@),
        ensures
            final(self)@ == after_turn(now),
            opt_text(line) == transcriber_report(old(self)@, now),
    {
        let ghost f = self@;
        let mut parts: Vec<String> = Vec::new();

        if self.partials.len() > 0 {
            parts.push(self.partials_summary());
        }
        assert(texts(parts@) =~= partials_part(f));
        if self.partials_unknown > 0 {
            let mut part = "partial unmeasured n=".to_owned();
            part.append(decimal(self.partials_unknown as u128).as_str());
            parts.push(part);
        }
        assert(texts(parts@) =~= partials_part(f) + unmeasured_part(f));
        match self.last_final {
            Some((at, Some(lag))) => {
                let mut part = "final ".to_owned();
                part.append(ms(lag).as_str());
                parts.push(part);
                let mut part = "endpoint ".to_owned();
                part.append(ms(endpoint(at, lag, now)).as_str());
                parts.push(part);
            },
            Some((_, None)) => {
                parts.push("final unmeasured".to_owned());
            },
            None => {},
        }
        assert(texts(parts@) =~= partials_part(f) + unmeasured_part(f) + final_part(f, now));

        self.partials = Vec::new();
        self.partials_unknown = 0;
        self.last_final = None;
        self.llm_first_token = None;
        self.turn_ended = Some(now);
        self.reply_started = Some(now);

        if parts.len() == 0 {
            return None;
        }
        let mut line = "deepgram latency: ".to_owned();
        line.append(join(&parts, " | ").as_str());
        Some(line)
    }

    fn partials_summary(&self) -> (part: String)
        requires
            reportable(self@),
            self@.partials.len() > 0,
        ensures
            seq![part@] == partials_part(self@),
    {
        let count: u32 = self.partials.len() as u32;
        let sum: u128 = sum_of(&self.partials).unwrap_or(0);
        let max: u128 = longest_of(&self.partials);
        let mut part = "partial avg ".to_owned();
        part.append(ms(Span { nanos: sum / (count as u128) }).as_str());
        part.append(" (max ");
        part.append(ms(Span { nanos: max }).as_str());
        part.append(", n=");
        part.append(decimal(count as u128).as_str());
        part.append(")");
        assert(seq![part@] =~= partials_part(self@));
        part
    }
}

/// All of these together, where that is still a length of time.
fn sum_of(spans: &Vec<Span>) -> (r: Option<u128>)
    ensures
        match r {
            Some(sum) => sum == total(spans@) && sum <= MAX_SPAN_NANOS,
            None => total(spans@) > MAX_SPAN_NANOS,
        },
{
    let mut sum: u128 = 0;
    let mut i: usize = 0;
    assert(spans@.take(0) =~= seq![]);
    while i < spans.len()
        invariant
            i <= spans@.len(),
            sum == total(spans@.take(i as int)),
            sum <= MAX_SPAN_NANOS,
        decreases spans@.len() - i,
    {
        let nanos = spans[i].nanos;
        proof {
            assert(spans@.take(i + 1).drop_last() =~= spans@.take(i as int));
            lemma_total_grows(spans@, i + 1);
        }
        if nanos > MAX_SPAN_NANOS - sum {
            return None;
        }
        sum = sum + nanos;
        i = i + 1;
    }
    assert(spans@.take(i as int) =~= spans@);
    Some(sum)
}

/// The longest of these.
fn longest_of(spans: &Vec<Span>) -> (max: u128)
    ensures
        max == longest(spans@),
{
    let mut max: u128 = 0;
    let mut i: usize = 0;
    assert(spans@.take(0) =~= seq![]);
    while i < spans.len()
        invariant
            i <= spans@.len(),
            max == longest(spans@.take(i as int)),
        decreases spans@.len() - i,
    {
        assert(spans@.take(i + 1).drop_last() =~= spans@.take(i as int));
        if spans[i].nanos >= max {
            max = spans[i].nanos;
        }
        i = i + 1;
    }
    assert(spans@.take(i as int) =~= spans@);
    max
}

proof fn lemma_total_grows(spans: Seq<Span>, i: int)
    requires
        0 <= i <= spans.len(),
    ensures
        total(spans.take(i)) <= total(spans),
    decreases spans.len() - i,
{
    if i == spans.len() {
        assert(spans.take(i) =~= spans);
    } else {
        lemma_total_grows(spans, i + 1);
        assert(spans.take(i + 1).drop_last() =~= spans.take(i));
    }
}

/// A response is reported once: later frames of the same turn report nothing.
pub proof fn law_a_response_is_reported_once(f: Figures, now: Moment, later: Moment)
    ensures
        response_report(f, now) is Some <==> f.turn_ended is Some,
        response_report(after_audible(f), later) is None,
{
}

/// The model's cost is reported when its reply finished streaming, whether or not the caller
/// heard some of it before: being heard changes nothing of what the model is measured by.
pub proof fn law_the_model_is_measured_to_the_end(
    ended: Moment,
    first: Moment,
    done: Moment,
    f: Figures,
)
    ensures
        model_report(after_audible(f), done) == model_report(f, done),
        after_first_token(after_audible(f), first) == after_audible(after_first_token(f, first)),
        model_report(after_audible(after_first_token(after_turn(ended), first)), done) == Some(
            "llm latency: "@ + ("first token "@ + ms_text(time_between(ended, first)) + " | "@ + (
            "full reply "@ + ms_text(time_between(ended, done)))),
        ),
        first.nanos <= done.nanos ==> time_between(ended, first).nanos <= time_between(
            ended,
            done,
        ).nanos,
{
}

/// What is reported of a turn speaks of that turn alone: once it ended, there is nothing to
/// report until something new arrives, and the reply is measured from that moment.
pub proof fn law_a_turn_starts_clean(ended: Moment, now: Moment)
    ensures
        transcriber_report(after_turn(ended), now) is None,
        response_report(after_turn(ended), now) == Some(
            "response metrics: "@ + ("overall "@ + ms_text(time_between(ended, now))),
        ),
        after_first_token(after_turn(ended), now).llm_first_token == Some(
            time_between(ended, now),
        ),
{
}

/// An interrupted reply is not reported, and what was measured of the caller's turn stays.
pub proof fn law_an_interruption_stops_the_clock(f: Figures, now: Moment)
    ensures
        response_report(after_interruption(f), now) is None,
        model_report(after_interruption(f), now) is None,
        after_first_token(after_interruption(f), now) == after_interruption(f),
        transcriber_report(after_interruption(f), now) == transcriber_report(f, now),
{
    let g = after_interruption(f);
    assert(partials_part(g) == partials_part(f));
    assert(unmeasured_part(g) == unmeasured_part(f));
    assert(final_part(g, now) == final_part(f, now));
}

/// The average that is reported never exceeds the maximum beside it.
pub proof fn law_the_average_is_within_the_maximum(f: Figures)
    requires
        f.partials.len() > 0,
    ensures
        total(f.partials) / f.partials.len() <= longest(f.partials),
{
    let n = f.partials.len() as int;
    let sum = total(f.partials) as int;
    let max = longest(f.partials) as int;
    lemma_total_is_bounded(f.partials);
    assert(sum / n <= max) by (nonlinear_arith)
        requires
            n > 0,
            sum <= n * max,
    ;
}

proof fn lemma_total_is_bounded(spans: Seq<Span>)
    ensures
        total(spans) <= spans.len() * longest(spans),
    decreases spans.len(),
{
    if spans.len() > 0 {
        let before = spans.drop_last();
        lemma_total_is_bounded(before);
        let n = before.len() as int;
        let a = longest(before) as int;
        let b = longest(spans) as int;
        assert(n * a + b <= (n + 1) * b) by (nonlinear_arith)
            requires
                n >= 0,
                a <= b,
        ;
    }
}

fn endpoint(at: Moment, lag: Span, now: Moment) -> (d: Span)
    requires
        lag.nanos <= MAX_SPAN_NANOS,
    ensures
        d == endpoint_delay(at, lag, now),
{
    let stretched: u128 = now.nanos as u128 + lag.nanos;
    if stretched >= at.nanos as u128 {
        Span { nanos: stretched - at.nanos as u128 }
    } else {
        Span { nanos: 0 }
    }
}

/// A length of time as it is reported.
pub fn ms(d: Span) -> (r: String)
    ensures
        r@ == ms_text(d),
{
    let mut r = decimal(d.as_millis());
    r.append(" ms");
    r
}

// ---- what holds of every turn

/// These together are the first of them and the rest of them together.
pub proof fn law_totals_add_up(a: Seq<Span>, b: Seq<Span>, span: Span)
    ensures
        total(Seq::<Span>::empty()) == 0,
        total(seq![span]) == span.nanos,
        total(a + b) == total(a) + total(b),
    decreases b.len(),
{
    assert(seq![span].drop_last() =~= seq![]);
    assert(total(seq![span].drop_last()) == 0);
    if b.len() == 0 {
        assert(a + b =~= a);
    } else {
        law_totals_add_up(a, b.drop_last(), span);
        assert((a + b).drop_last() =~= a + b.drop_last());
    }
}

/// The longest is one of them, and none is longer.
pub proof fn law_the_longest_is_longest(spans: Seq<Span>)
    ensures
        spans.len() > 0 ==> exists|i: int|
            0 <= i < spans.len() && (#[trigger] spans[i]).nanos == longest(spans),
        forall|i: int| 0 <= i < spans.len() ==> (#[trigger] spans[i]).nanos <= longest(spans),
    decreases spans.len(),
{
    if spans.len() > 0 {
        let before = spans.drop_last();
        law_the_longest_is_longest(before);
        assert(spans[spans.len() - 1] == spans.last());
        if spans.last().nanos < longest(before) {
            let i = choose|i: int|
                0 <= i < before.len() && (#[trigger] before[i]).nanos == longest(before);
            if before.len() > 0 {
                assert(spans[i] == before[i]);
            }
        }
        assert forall|i: int| 0 <= i < spans.len() implies (#[trigger] spans[i]).nanos <= longest(
            spans,
        ) by {
            if i < before.len() {
                assert(before[i] == spans[i]);
            }
        }
    }
}

/// An interim result is counted once: by its lag where that could be measured, and among the
/// unmeasured otherwise. Nothing else is touched.
pub proof fn law_an_interim_result_is_counted_once(metrics: &mut TurnMetrics, lag: Option<Span>)
    requires
        call_ensures(TurnMetrics::interim, (metrics, lag), ()),
    ensures
        lag matches Some(span) ==> final(metrics)@.partials == old(metrics)@.partials.push(span)
            && final(metrics)@.partials_unknown == old(metrics)@.partials_unknown,
        lag is None ==> final(metrics)@.partials == old(metrics)@.partials
            && final(metrics)@.partials_unknown == old(metrics)@.partials_unknown + 1,
        final(metrics)@.last_final == old(metrics)@.last_final,
        final(metrics)@.turn_ended == old(metrics)@.turn_ended,
        final(metrics)@.reply_started == old(metrics)@.reply_started,
        final(metrics)@.llm_first_token == old(metrics)@.llm_first_token,
{
}

/// Of the finals, the last counts, with its lag and its moment. Nothing else is touched.
pub proof fn law_the_last_final_counts(metrics: &mut TurnMetrics, lag: Option<Span>, now: Moment)
    requires
        call_ensures(TurnMetrics::transcript_final, (metrics, lag, now), ()),
    ensures
        final(metrics)@.last_final == Some((now, lag)),
        final(metrics)@.partials == old(metrics)@.partials,
        final(metrics)@.partials_unknown == old(metrics)@.partials_unknown,
        final(metrics)@.turn_ended == old(metrics)@.turn_ended,
        final(metrics)@.reply_started == old(metrics)@.reply_started,
        final(metrics)@.llm_first_token == old(metrics)@.llm_first_token,
{
}

/// The first token is dated from when the reply was asked for. Nothing else is touched.
pub proof fn law_the_first_token_is_dated_from_the_question(metrics: &mut TurnMetrics, now: Moment)
    requires
        call_ensures(TurnMetrics::llm_first_token, (metrics, now), ()),
    ensures
        old(metrics)@.reply_started is None ==> final(metrics)@.llm_first_token is None,
        old(metrics)@.reply_started matches Some(start) ==> final(metrics)@.llm_first_token is Some
            && (start.nanos <= now.nanos ==> start.nanos
            + final(metrics)@.llm_first_token->0.nanos == now.nanos) && (start.nanos > now.nanos
            ==> final(metrics)@.llm_first_token->0.nanos == 0),
        final(metrics)@.partials == old(metrics)@.partials,
        final(metrics)@.partials_unknown == old(metrics)@.partials_unknown,
        final(metrics)@.last_final == old(metrics)@.last_final,
        final(metrics)@.turn_ended == old(metrics)@.turn_ended,
        final(metrics)@.reply_started == old(metrics)@.reply_started,
{
}

/// The end of a reply is reported for every reply that was asked for: the time to its first token,
/// where there was one, and the time to its end. It changes no figure.
pub proof fn law_every_reply_is_reported(
    metrics: &mut TurnMetrics,
    now: Moment,
    line: Option<String>,
)
    requires
        call_ensures(TurnMetrics::llm_done, (metrics, now), line),
    ensures
        final(metrics)@ == old(metrics)@,
        line is Some <==> old(metrics)@.reply_started is Some,
        old(metrics)@.reply_started matches Some(start) ==> start.nanos <= now.nanos ==> line->0@
            == "llm latency: "@ + (match old(metrics)@.llm_first_token {
            Some(first) => "first token "@ + decimal_text((first.nanos / 1_000_000) as nat)
                + " ms"@ + " | "@,
            None => seq![],
        }) + "full reply "@ + decimal_text(((now.nanos - start.nanos) / 1_000_000) as nat)
            + " ms"@,
{
    if let Some(start) = old(metrics)@.reply_started {
        if start.nanos <= now.nanos {
            assert(line->0@ =~= "llm latency: "@ + (match old(metrics)@.llm_first_token {
                Some(first) => "first token "@ + decimal_text((first.nanos / 1_000_000) as nat)
                    + " ms"@ + " | "@,
                None => seq![],
            }) + "full reply "@ + decimal_text(((now.nanos - start.nanos) / 1_000_000) as nat)
                + " ms"@);
        }
    }
}

/// The first audio after a turn is reported, with the time since the turn ended and the time to
/// the first token where that is known; and from then on nothing is waited for.
pub proof fn law_the_first_audio_is_reported(
    metrics: &mut TurnMetrics,
    now: Moment,
    line: Option<String>,
)
    requires
        call_ensures(TurnMetrics::response_audible, (metrics, now), line),
    ensures
        line is Some <==> old(metrics)@.turn_ended is Some,
        old(metrics)@.turn_ended matches Some(end) ==> end.nanos <= now.nanos ==> line->0@
            == "response metrics: overall "@ + decimal_text(
            ((now.nanos - end.nanos) / 1_000_000) as nat,
        ) + " ms"@ + match old(metrics)@.llm_first_token {
            Some(first) => " | llm first token "@ + decimal_text((first.nanos / 1_000_000) as nat)
                + " ms"@,
            None => seq![],
        },
        final(metrics)@.turn_ended is None,
        final(metrics)@.partials == old(metrics)@.partials,
        final(metrics)@.partials_unknown == old(metrics)@.partials_unknown,
        final(metrics)@.last_final == old(metrics)@.last_final,
        final(metrics)@.reply_started == old(metrics)@.reply_started,
        final(metrics)@.llm_first_token == old(metrics)@.llm_first_token,
{
    if let Some(end) = old(metrics)@.turn_ended {
        if end.nanos <= now.nanos {
            reveal_strlit("response metrics: overall ");
            reveal_strlit("response metrics: ");
            reveal_strlit("overall ");
            reveal_strlit(" | llm first token ");
            reveal_strlit(" | ");
            reveal_strlit("llm first token ");
            assert("response metrics: overall "@ =~= "response metrics: "@ + "overall "@);
            assert(" | llm first token "@ =~= " | "@ + "llm first token "@);
            assert(line->0@ =~= "response metrics: overall "@ + decimal_text(
                ((now.nanos - end.nanos) / 1_000_000) as nat,
            ) + " ms"@ + match old(metrics)@.llm_first_token {
                Some(first) => " | llm first token "@ + decimal_text(
                    (first.nanos / 1_000_000) as nat,
                ) + " ms"@,
                None => seq![],
            });
        }
    }
}

/// An interruption says how much speech was thrown away. The reply is measured no further, and
/// what was measured of the caller's own turn stays.
pub proof fn law_an_interruption_ends_the_measuring(
    metrics: &mut TurnMetrics,
    dropped: Span,
    line: String,
)
    requires
        call_ensures(TurnMetrics::interrupted, (metrics, dropped), line),
    ensures
        line@ == "barge-in: dropped "@ + (decimal_text((dropped.nanos / 1_000_000) as nat)
            + " ms"@) + " of queued speech"@,
        final(metrics)@.turn_ended is None,
        final(metrics)@.reply_started is None,
        final(metrics)@.llm_first_token is None,
        final(metrics)@.partials == old(metrics)@.partials,
        final(metrics)@.partials_unknown == old(metrics)@.partials_unknown,
        final(metrics)@.last_final == old(metrics)@.last_final,
{
}

/// What is said of a turn that ended: the average and the longest lag of the partials that could
/// be measured and how many they were, how many could not be, and the lag of the last final with
/// the time from the caller's last word to the end of the turn. What is not known is left out, and
/// nothing is said where nothing is known.
pub proof fn law_a_turn_is_reported_as_it_was(
    metrics: &mut TurnMetrics,
    now: Moment,
    line: Option<String>,
    average: nat,
    longest_one: nat,
    since: nat,
)
    requires
        call_ensures(TurnMetrics::utterance_end, (metrics, now), line),
        ({
            let spans = old(metrics)@.partials;
            spans.len() > 0 ==> {
                &&& spans.len() * average <= total(spans) < spans.len() * (average + 1)
                &&& total(spans) <= MAX_SPAN_NANOS
                &&& exists|i: int| 0 <= i < spans.len() && (#[trigger] spans[i]).nanos == longest_one
                &&& forall|i: int|
                    0 <= i < spans.len() ==> (#[trigger] spans[i]).nanos <= longest_one
            }
        }),
        old(metrics)@.last_final matches Some((at, Some(lag))) ==> lag.nanos <= MAX_SPAN_NANOS
            && since == if now.nanos + lag.nanos >= at.nanos {
            now.nanos + lag.nanos - at.nanos
        } else {
            0
        },
    ensures
        ({
            let f = old(metrics)@;
            let parts = (if f.partials.len() > 0 {
                seq![
                    "partial avg "@ + (decimal_text(average / 1_000_000) + " ms"@) + " (max "@ + (
                    decimal_text(longest_one / 1_000_000) + " ms"@) + ", n="@ + decimal_text(
                        f.partials.len(),
                    ) + ")"@,
                ]
            } else {
                seq![]
            }) + (if f.partials_unknown > 0 {
                seq!["partial unmeasured n="@ + decimal_text(f.partials_unknown)]
            } else {
                seq![]
            }) + (match f.last_final {
                Some((_, Some(lag))) => seq![
                    "final "@ + (decimal_text((lag.nanos / 1_000_000) as nat) + " ms"@),
                    "endpoint "@ + (decimal_text(since / 1_000_000) + " ms"@),
                ],
                Some((_, None)) => seq!["final unmeasured"@],
                None => seq![],
            });
            &&& line is None <==> parts.len() == 0
            &&& line matches Some(text) ==> text@ == "deepgram latency: "@ + joined(parts, " | "@)
        }),
        final(metrics)@.turn_ended == Some(now),
        final(metrics)@.reply_started == Some(now),
        final(metrics)@.partials.len() == 0,
        final(metrics)@.partials_unknown == 0,
        final(metrics)@.last_final is None,
        final(metrics)@.llm_first_token is None,
{
    let f = old(metrics)@;
    if f.partials.len() > 0 {
        let n = f.partials.len() as int;
        let sum = total(f.partials) as int;
        law_the_longest_is_longest(f.partials);
        assert(longest(f.partials) == longest_one);
        assert(sum / n == average) by (nonlinear_arith)
            requires
                n > 0,
                n * average <= sum < n * (average + 1),
        ;
        lemma_total_bounds_each(f.partials);
        assert(longest_one <= MAX_SPAN_NANOS);
        assert(average <= sum) by (nonlinear_arith)
            requires
                n > 0,
                average >= 0,
                n * average <= sum,
        ;
        assert(partials_part(f) =~= seq![
            "partial avg "@ + (decimal_text(average / 1_000_000) + " ms"@) + " (max "@ + (
            decimal_text(longest_one / 1_000_000) + " ms"@) + ", n="@ + decimal_text(
                f.partials.len(),
            ) + ")"@,
        ]);
    }
    assert(final_part(f, now) =~= match f.last_final {
        Some((_, Some(lag))) => seq![
            "final "@ + (decimal_text((lag.nanos / 1_000_000) as nat) + " ms"@),
            "endpoint "@ + (decimal_text(since / 1_000_000) + " ms"@),
        ],
        Some((_, None)) => seq!["final unmeasured"@],
        None => seq![],
    });
}

proof fn lemma_total_bounds_each(spans: Seq<Span>)
    ensures
        longest(spans) <= total(spans),
    decreases spans.len(),
{
    if spans.len() > 0 {
        lemma_total_bounds_each(spans.drop_last());
    }
}

/// A turn can be reported unless its numbers run over: more partials than 32 bits can count, lags
/// that add up to more than a time can be, or a final with such a lag.
pub proof fn law_what_can_be_reported(metrics: TurnMetrics, lag: Option<Span>, r: bool, c: bool)
    requires
        call_ensures(TurnMetrics::can_report, (&metrics,), r),
        call_ensures(TurnMetrics::can_count, (&metrics, lag), c),
    ensures
        r <==> {
            &&& metrics@.partials.len() <= u32::MAX
            &&& total(metrics@.partials) <= 18_446_744_073_709_551_615_999_999_999
            &&& metrics@.last_final matches Some((_, Some(l))) ==> l.nanos
                <= 18_446_744_073_709_551_615_999_999_999
        },
        c <==> (lag is Some || metrics@.partials_unknown < u32::MAX),
{
}

/// A length of time is reported in whole milliseconds, rounded down.
pub proof fn law_times_are_told_in_milliseconds(d: Span, whole: nat, r: String)
    requires
        call_ensures(ms, (d,), r),
        whole * 1_000_000 <= d.nanos < (whole + 1) * 1_000_000,
    ensures
        r@ == decimal_text(whole) + " ms"@,
{
}

} // verus!
