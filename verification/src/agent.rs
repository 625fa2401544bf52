//! The conversation brain: transcribe the caller, answer with the language model, speak the
//! answer — and stop all of it the moment the caller talks again.
//!
//! The agent is a state machine. Events come from the transcriber and from the reply that is
//! being produced; each gives the actions to perform, in order.

use vstd::prelude::*;
use vstd::string::*;

use crate::audio::{playing_time, Speaker, FRAME_MILLIS};
use crate::chunker::{
    held_after, held_over, law_sentences_are_clean, lemma_joined_push, said_on, said_over,
    sentence_of, Chunker,
};
use crate::llm::{
    assistant_message, copy_messages, system_message, user_message, Message, MessageView,
};
use crate::metrics::{
    after_first_token, after_interim, after_interruption, after_turn,
    law_an_interruption_stops_the_clock, model_report, ms_text, reportable, transcriber_report, Figures, TurnMetrics,
};
use crate::stt::{EventView, SttEvent};
use crate::text::{
    decimal, decimal_text, is_white_space, joined, lemma_decimal_reads_back, lemma_nothing_is_solid,
    lemma_trimming_keeps_what_is_solid, same, solid, trimmed,
};
use crate::time::{Moment, Span};
use crate::tts::{Command, CommandView, Speech};

verus! {

/// Messages kept besides the system prompt. Every turn resends the history, so an unbounded one
/// makes long calls slower and costlier per reply; twenty exchanges is plenty of context for a
/// spoken conversation.
pub const MAX_HISTORY: usize = 40;

// ---- the state

/// How far a reply has come.
#[derive(Debug, Clone, Copy, PartialEq, Eq, Structural)]
pub enum Phase {
    /// The model is asked, or its tokens are coming in.
    Streaming,
    /// All tokens are in, and the message that closes the context is on its way to the voice.
    Closing,
    /// Nothing more will be produced. What was produced may still be playing.
    Done,
}

/// A reply in progress.
pub struct AnswerView {
    pub context_id: Seq<char>,
    /// What the chunker holds back for the next sentence.
    pub pending: Seq<char>,
    /// All the model wrote.
    pub text: Seq<char>,
    /// Text handed to the voice. On an interruption this is roughly what the caller heard.
    pub spoken: Seq<char>,
    pub phase: Phase,
}

/// A conversation in progress.
pub struct AgentView {
    pub history: Seq<MessageView>,
    /// The finals of the caller's turn so far.
    pub turn: Seq<char>,
    pub answer: Option<AnswerView>,
    /// The number in the latest context id.
    pub last_context: nat,
}

/// What is true of every conversation: it starts with the system prompt, stays bounded, waits
/// for an answer only to something the user said, and hands the voice all that the model wrote
/// except what is still held back.
pub open spec fn agent_ok(a: AgentView) -> bool {
    &&& 1 <= a.history.len() <= MAX_HISTORY + 2
    &&& a.history[0].role == "system"@
    &&& a.last_context <= u64::MAX
    &&& a.answer matches Some(answer) ==> {
        &&& answer.phase != Phase::Done ==> 2 <= a.history.len() <= MAX_HISTORY + 1
            && a.history.last().role == "user"@
        &&& answer.phase == Phase::Closing ==> answer.pending.len() == 0
        &&& solid(answer.spoken) + solid(answer.pending) == solid(answer.text)
        &&& answer.context_id == context_text(a.last_context)
    }
}

/// A reply that has just been asked for.
pub open spec fn fresh_answer(context_id: Seq<char>) -> AnswerView {
    AnswerView { context_id, pending: seq![], text: seq![], spoken: seq![], phase: Phase::Streaming }
}

/// The id of the context with a number.
pub open spec fn context_text(number: nat) -> Seq<char> {
    "turn-"@ + decimal_text(number)
}

/// The number of the next context: the length of the history, or the next number that was not
/// used yet where the history did not grow.
pub open spec fn next_context(history_len: nat, last: nat) -> nat {
    if history_len > last {
        history_len
    } else {
        last + 1
    }
}

/// A history without what is too old: the system prompt and the most recent messages stay.
pub open spec fn recent(history: Seq<MessageView>) -> Seq<MessageView> {
    if history.len() > MAX_HISTORY + 1 {
        history.take(1) + history.skip(history.len() - MAX_HISTORY)
    } else {
        history
    }
}

/// `said`, and then `more`.
pub open spec fn followed_by(said: Seq<char>, more: Seq<char>) -> Seq<char> {
    if said.len() == 0 {
        more
    } else {
        said + " "@ + more
    }
}

// ---- actions

/// What the agent wants done.
#[derive(Debug)]
pub enum Action {
    /// Stop producing the reply.
    StopReply,
    /// Tell the voice.
    Voice(Command),
    /// Ask the model for a reply to these messages.
    StartReply { messages: Vec<Message>, context_id: String },
    /// Write a line to the log.
    Log(String),
    /// Write a warning to the log.
    Warn(String),
}

/// An action, with its texts as characters.
pub enum ActionView {
    StopReply,
    Voice(CommandView),
    StartReply { messages: Seq<MessageView>, context_id: Seq<char> },
    Log(Seq<char>),
    Warn(Seq<char>),
}

impl View for Action {
    type V = ActionView;

    open spec fn view(&self) -> ActionView {
        match *self {
            Action::StopReply => ActionView::StopReply,
            Action::Voice(command) => ActionView::Voice(command@),
            Action::StartReply { messages, context_id } => ActionView::StartReply {
                messages: messages.deep_view(),
                context_id: context_id@,
            },
            Action::Log(line) => ActionView::Log(line@),
            Action::Warn(line) => ActionView::Warn(line@),
        }
    }
}

impl DeepView for Action {
    type V = ActionView;

    open spec fn deep_view(&self) -> ActionView {
        self@
    }
}

/// The action that logs a line, if there is one.
pub open spec fn logging(line: Option<Seq<char>>) -> Seq<ActionView> {
    match line {
        Some(line) => seq![ActionView::Log(line)],
        None => seq![],
    }
}

/// The action that has a sentence spoken.
pub open spec fn speaking(context_id: Seq<char>, text: Seq<char>, end: bool) -> ActionView {
    ActionView::Voice(CommandView::Speak { text, context_id, end })
}

// ---- interruptions

/// Whether an interruption cuts anything off. A finished reply is not necessarily over: the
/// audio it produced is usually still queued and playing.
pub open spec fn cuts_off(a: AgentView, queued: Span) -> bool {
    a.answer matches Some(answer) && (answer.phase != Phase::Done || queued.nanos != 0)
}

/// The conversation after an interruption: only what was heard is remembered. A completed reply
/// has already been added.
pub open spec fn interrupted_agent(a: AgentView) -> AgentView {
    match a.answer {
        None => a,
        Some(answer) => AgentView {
            history: if answer.phase != Phase::Done && answer.spoken.len() > 0 {
                a.history.push(assistant_message(answer.spoken))
            } else {
                a.history
            },
            answer: None,
            ..a
        },
    }
}

/// The figures after an interruption.
pub open spec fn interrupted_figures(a: AgentView, f: Figures, queued: Span) -> Figures {
    if cuts_off(a, queued) {
        after_interruption(f)
    } else {
        f
    }
}

/// The speech that waits after an interruption: none, where a reply was cut off.
pub open spec fn interrupted_queue<F>(a: AgentView, queue: Seq<F>) -> Seq<F> {
    if a.answer is Some {
        seq![]
    } else {
        queue
    }
}

/// What an interruption asks for.
pub open spec fn interruption(a: AgentView, queued: Span) -> Seq<ActionView> {
    match a.answer {
        None => seq![],
        Some(answer) => (if answer.phase != Phase::Done {
            seq![ActionView::StopReply]
        } else {
            seq![]
        }) + (if cuts_off(a, queued) {
            seq![
                ActionView::Voice(CommandView::Clear { context_id: answer.context_id }),
                ActionView::Log(
                    "barge-in: dropped "@ + ms_text(queued) + " of queued speech"@,
                ),
            ]
        } else {
            seq![]
        }),
    }
}

// ---- the transcriber's events

/// The conversation once the caller's turn is over and the model is asked.
pub open spec fn asked(a: AgentView) -> AgentView {
    let history = recent(a.history.push(user_message(a.turn)));
    let number = next_context(history.len(), a.last_context);
    AgentView {
        history,
        turn: seq![],
        answer: Some(fresh_answer(context_text(number))),
        last_context: number,
    }
}

/// The conversation after an event of the transcriber.
pub open spec fn agent_after(a: AgentView, event: EventView) -> AgentView {
    match event {
        // The caller's voice while the agent is talking means it has been interrupted.
        EventView::SpeechStarted | EventView::Interim { .. } => interrupted_agent(a),
        EventView::Final { text, .. } => AgentView { turn: followed_by(a.turn, text), ..a },
        EventView::UtteranceEnd => if a.turn.len() == 0 {
            a
        } else {
            asked(interrupted_agent(a))
        },
    }
}

/// The figures after an event of the transcriber.
pub open spec fn figures_after(
    a: AgentView,
    f: Figures,
    event: EventView,
    queued: Span,
    now: Moment,
) -> Figures {
    match event {
        EventView::SpeechStarted => interrupted_figures(a, f, queued),
        EventView::Interim { lag, .. } => interrupted_figures(
            a,
            after_interim(f, lag),
            queued,
        ),
        EventView::Final { lag, .. } => Figures { last_final: Some((now, lag)), ..f },
        EventView::UtteranceEnd => if a.turn.len() == 0 {
            f
        } else {
            after_turn(now)
        },
    }
}

/// The speech that waits after an event of the transcriber.
pub open spec fn queue_after<F>(a: AgentView, event: EventView, queue: Seq<F>) -> Seq<F> {
    match event {
        EventView::SpeechStarted | EventView::Interim { .. } => interrupted_queue(a, queue),
        EventView::UtteranceEnd => if a.turn.len() == 0 {
            queue
        } else {
            interrupted_queue(a, queue)
        },
        EventView::Final { .. } => queue,
    }
}

/// What an event of the transcriber asks for.
pub open spec fn actions_on(
    a: AgentView,
    f: Figures,
    event: EventView,
    queued: Span,
    now: Moment,
) -> Seq<ActionView> {
    match event {
        EventView::SpeechStarted => interruption(a, queued),
        EventView::Interim { text, .. } => seq![ActionView::Log("… "@ + text)] + interruption(
            a,
            queued,
        ),
        EventView::UtteranceEnd => if a.turn.len() == 0 {
            seq![]
        } else {
            let after = asked(interrupted_agent(a));
            interruption(a, queued) + seq![ActionView::Log("USER: "@ + a.turn)] + logging(
                transcriber_report(interrupted_figures(a, f, queued), now),
            ) + seq![
                ActionView::StartReply {
                    messages: after.history,
                    context_id: context_text(after.last_context),
                },
            ]
        },
        EventView::Final { .. } => seq![],
    }
}

/// Whether an event can be counted: a count has room left, and the turn that ends can be
/// reported and numbered.
pub open spec fn countable(a: AgentView, f: Figures, event: EventView) -> bool {
    match event {
        EventView::Interim { lag, .. } => lag is None ==> f.partials_unknown < u32::MAX,
        EventView::UtteranceEnd => a.turn.len() > 0 ==> reportable(f) && a.last_context
            < u64::MAX,
        _ => true,
    }
}

// ---- the reply's events

/// What can happen to a reply while it is produced.
#[derive(Debug)]
pub enum ReplyEvent {
    /// The model could not be asked.
    Refused(String),
    Token(String),
    /// The stream broke. What came before still counts.
    Broken(String),
    /// The stream is over.
    Ended,
    /// The last message was handed to the voice.
    Closed,
}

/// An event, with its text as characters.
pub enum ReplyEventView {
    Refused(Seq<char>),
    Token(Seq<char>),
    Broken(Seq<char>),
    Ended,
    Closed,
}

impl View for ReplyEvent {
    type V = ReplyEventView;

    open spec fn view(&self) -> ReplyEventView {
        match *self {
            ReplyEvent::Refused(e) => ReplyEventView::Refused(e@),
            ReplyEvent::Token(t) => ReplyEventView::Token(t@),
            ReplyEvent::Broken(e) => ReplyEventView::Broken(e@),
            ReplyEvent::Ended => ReplyEventView::Ended,
            ReplyEvent::Closed => ReplyEventView::Closed,
        }
    }
}

/// What the next item of a reply's stream means for it. The first failure ends it, as the end of
/// the stream does.
pub fn reply_event(item: Option<Result<String, String>>) -> (event: ReplyEvent)
    ensures
        event@ == match item {
            Some(Ok(token)) => ReplyEventView::Token(token@),
            Some(Err(error)) => ReplyEventView::Broken(error@),
            None => ReplyEventView::Ended,
        },
{
    match item {
        Some(Ok(token)) => ReplyEvent::Token(token),
        Some(Err(error)) => ReplyEvent::Broken(error),
        None => ReplyEvent::Ended,
    }
}

/// Whether an event belongs to the reply in progress, and to the phase it is in. A reply that
/// was stopped may still report something; that is passed over.
pub open spec fn concerns(a: AgentView, context_id: Seq<char>, event: ReplyEventView) -> bool {
    a.answer matches Some(answer) && answer.context_id == context_id && (match event {
        ReplyEventView::Closed => answer.phase == Phase::Closing,
        _ => answer.phase == Phase::Streaming,
    })
}

/// What has been spoken of a reply, after one more sentence.
pub open spec fn spoken_after(spoken: Seq<char>, text: Seq<char>) -> Seq<char> {
    if text.len() == 0 {
        spoken
    } else {
        followed_by(spoken, text)
    }
}

/// A sentence, or nothing.
pub open spec fn or_nothing(sentence: Option<Seq<char>>) -> Seq<char> {
    match sentence {
        Some(text) => text,
        None => seq![],
    }
}

/// A reply after an event that concerns it.
pub open spec fn answer_after(answer: AnswerView, event: ReplyEventView) -> AnswerView {
    match event {
        ReplyEventView::Refused(_) => AnswerView { phase: Phase::Done, ..answer },
        ReplyEventView::Token(token) => AnswerView {
            text: answer.text + token,
            pending: held_after(answer.pending, token),
            spoken: spoken_after(answer.spoken, or_nothing(said_on(answer.pending, token))),
            ..answer
        },
        ReplyEventView::Broken(_) | ReplyEventView::Ended => AnswerView {
            pending: seq![],
            spoken: spoken_after(answer.spoken, or_nothing(sentence_of(answer.pending))),
            phase: Phase::Closing,
            ..answer
        },
        ReplyEventView::Closed => AnswerView { phase: Phase::Done, ..answer },
    }
}

/// The history after an event that concerns the reply. No user turn is left in it that the model
/// could not be asked about.
pub open spec fn history_after(a: AgentView, event: ReplyEventView) -> Seq<MessageView> {
    match event {
        ReplyEventView::Refused(_) => a.history.drop_last(),
        ReplyEventView::Closed => if a.answer->0.text.len() == 0 {
            a.history
        } else {
            a.history.push(assistant_message(a.answer->0.text))
        },
        _ => a.history,
    }
}

/// The conversation after an event of a reply.
pub open spec fn agent_after_reply(
    a: AgentView,
    context_id: Seq<char>,
    event: ReplyEventView,
) -> AgentView {
    if concerns(a, context_id, event) {
        AgentView {
            history: history_after(a, event),
            answer: Some(answer_after(a.answer->0, event)),
            ..a
        }
    } else {
        a
    }
}

/// The figures after an event of a reply.
pub open spec fn figures_after_reply(
    a: AgentView,
    context_id: Seq<char>,
    event: ReplyEventView,
    f: Figures,
    now: Moment,
) -> Figures {
    if concerns(a, context_id, event) && event is Token && a.answer->0.text.len() == 0 {
        after_first_token(f, now)
    } else {
        f
    }
}

/// What an event of a reply asks for: each sentence is spoken as soon as it is complete, and the
/// final message closes the context, even when there is nothing left to say.
pub open spec fn actions_on_reply(
    a: AgentView,
    context_id: Seq<char>,
    event: ReplyEventView,
    f: Figures,
    now: Moment,
) -> Seq<ActionView> {
    if !concerns(a, context_id, event) {
        seq![]
    } else {
        let answer = a.answer->0;
        match event {
            ReplyEventView::Refused(error) => seq![ActionView::Warn("llm: "@ + error)],
            ReplyEventView::Token(token) => match said_on(answer.pending, token) {
                Some(text) => seq![speaking(context_id, text, false)],
                None => seq![],
            },
            ReplyEventView::Broken(error) => seq![
                ActionView::Warn("llm: "@ + error),
                speaking(context_id, or_nothing(sentence_of(answer.pending)), true),
            ],
            ReplyEventView::Ended => seq![
                speaking(context_id, or_nothing(sentence_of(answer.pending)), true),
            ],
            ReplyEventView::Closed => seq![ActionView::Log("AGENT: "@ + answer.text)] + logging(
                model_report(f, now),
            ),
        }
    }
}

// ---- the machine

struct Answer {
    context_id: String,
    chunker: Chunker,
    text: String,
    spoken: String,
    phase: Phase,
}

impl View for Answer {
    type V = AnswerView;

    closed spec fn view(&self) -> AnswerView {
        AnswerView {
            context_id: self.context_id@,
            pending: self.chunker@,
            text: self.text@,
            spoken: self.spoken@,
            phase: self.phase,
        }
    }
}

/// A conversation with one caller.
pub struct Agent {
    history: Vec<Message>,
    turn: String,
    answer: Option<Answer>,
    last_context: u64,
}

impl View for Agent {
    type V = AgentView;

    closed spec fn view(&self) -> AgentView {
        AgentView {
            history: self.history.deep_view(),
            turn: self.turn@,
            answer: match self.answer {
                Some(answer) => Some(answer@),
                None => None,
            },
            last_context: self.last_context as nat,
        }
    }
}

/// Keeps the system prompt and the most recent `MAX_HISTORY` messages.
pub fn trim_history(messages: &mut Vec<Message>)
    ensures
        final(messages).deep_view() == recent(old(messages).deep_view()),
{
    if messages.len() > MAX_HISTORY + 1 {
        let at = messages.len() - MAX_HISTORY;
        let mut tail = messages.split_off(at);
        messages.truncate(1);
        messages.append(&mut tail);
    }
    assert(messages.deep_view() =~= recent(old(messages).deep_view()));
}

/// Adds what is said next to what was said before.
fn extend(said: &mut String, more: &str)
    ensures
        final(said)@ == followed_by(old(said)@, more@),
{
    if !said.as_str().is_empty() {
        said.append(" ");
    } else {
        assert(said@ + more@ =~= more@);
    }
    said.append(more);
}

fn line_of(prefix: &str, text: &str) -> (line: String)
    ensures
        line@ == prefix@ + text@,
{
    let mut line = prefix.to_owned();
    line.append(text);
    line
}

/// Has a sentence spoken, and remembers it as said.
fn say(context_id: &str, spoken: &mut String, text: String, end: bool) -> (action: Action)
    ensures
        final(spoken)@ == spoken_after(old(spoken)@, text@),
        action@ == speaking(context_id@, text@, end),
{
    if !text.as_str().is_empty() {
        extend(spoken, text.as_str());
    }
    Action::Voice(Command::Speak(Speech { text, context_id: context_id.to_owned(), end }))
}

impl Agent {
    pub fn new(system_prompt: String) -> (agent: Self)
        ensures
            agent_ok(agent@),
            agent@ == (AgentView {
                history: seq![system_message(system_prompt@)],
                turn: seq![],
                answer: None,
                last_context: 0,
            }),
    {
        let mut history: Vec<Message> = Vec::new();
        history.push(Message::system(system_prompt));
        assert(history.deep_view() =~= seq![system_message(system_prompt@)]);
        Agent { history, turn: String::new(), answer: None, last_context: 0 }
    }

    /// Stops a reply that is still streaming or speaking, and remembers only what was heard.
    fn interrupt<F>(&mut self, speaker: &mut Speaker<F>, metrics: &mut TurnMetrics) -> (actions:
        Vec<Action>)
        requires
            agent_ok(old(self)@),
            old(speaker).wf(),
        ensures
            agent_ok(final(self)@),
            final(speaker).wf(),
            final(self)@ == interrupted_agent(old(self)@),
            final(speaker)@ == interrupted_queue(old(self)@, old(speaker)@),
            final(metrics)@ == interrupted_figures(
                old(self)@,
                old(metrics)@,
                playing_time(old(speaker)@),
            ),
            actions.deep_view() == interruption(old(self)@, playing_time(old(speaker)@)),
    {
        let mut actions: Vec<Action> = Vec::new();
        let answer = match self.answer.take() {
            Some(answer) => answer,
            None => {
                assert(actions.deep_view() =~= seq![]);
                return actions;
            },
        };
        let streaming = answer.phase != Phase::Done;
        if streaming {
            actions.push(Action::StopReply);
        }
        let dropped = speaker.clear();
        if !streaming && dropped.is_zero() {
            assert(actions.deep_view() =~= seq![]);
            return actions;
        }
        actions.push(Action::Voice(Command::Clear { context_id: answer.context_id }));
        if streaming {
            if !answer.spoken.as_str().is_empty() {
                self.history.push(Message::assistant(answer.spoken));
                assert(self.history.deep_view() =~= old(self)@.history.push(
                    assistant_message(answer.spoken@),
                ));
            }
        }
        actions.push(Action::Log(metrics.interrupted(dropped)));
        assert(actions.deep_view() =~= interruption(old(self)@, playing_time(old(speaker)@)));
        actions
    }

    /// Asks the model about what the caller said.
    fn ask(&mut self) -> (action: Action)
        requires
            agent_ok(old(self)@),
            old(self)@.answer is None,
            old(self)@.last_context < u64::MAX,
        ensures
            agent_ok(final(self)@),
            final(self)@ == asked(old(self)@),
            action@ == (ActionView::StartReply {
                messages: asked(old(self)@).history,
                context_id: context_text(asked(old(self)@).last_context),
            }),
    {
        let said = self.turn.clone();
        self.turn = String::new();
        self.history.push(Message::user(said));
        assert(self.history.deep_view() =~= old(self)@.history.push(
            user_message(old(self)@.turn),
        ));
        trim_history(&mut self.history);
        let len: u64 = self.history.len() as u64;
        if len > self.last_context {
            self.last_context = len;
        } else {
            self.last_context = self.last_context + 1;
        }
        let mut context_id = "turn-".to_owned();
        context_id.append(decimal(self.last_context as u128).as_str());
        let messages = copy_messages(&self.history);
        self.answer = Some(
            Answer {
                context_id: context_id.clone(),
                chunker: Chunker::default(),
                text: String::new(),
                spoken: String::new(),
                phase: Phase::Streaming,
            },
        );
        proof {
            let h = old(self)@.history.push(user_message(old(self)@.turn));
            assert(recent(h)[0] == h[0]);
            assert(recent(h).last() == h.last());
            lemma_nothing_is_solid();
        }
        Action::StartReply { messages, context_id }
    }

    /// Whether what the transcriber reports can be taken in.
    pub fn can_take(&self, event: &SttEvent, metrics: &TurnMetrics) -> (b: bool)
        ensures
            b == countable(self@, metrics@, event@),
    {
        match event {
            SttEvent::Interim { lag, .. } => metrics.can_count(*lag),
            SttEvent::UtteranceEnd => self.turn.as_str().is_empty() || (metrics.can_report()
                && self.last_context < u64::MAX),
            _ => true,
        }
    }

    /// Takes in what the transcriber reports.
    pub fn on_stt<F>(
        &mut self,
        event: SttEvent,
        speaker: &mut Speaker<F>,
        metrics: &mut TurnMetrics,
        now: Moment,
    ) -> (actions: Vec<Action>)
        requires
            agent_ok(old(self)@),
            old(speaker).wf(),
            countable(old(self)@, old(metrics)@, event@),
        ensures
            agent_ok(final(self)@),
            final(speaker).wf(),
            final(self)@ == agent_after(old(self)@, event@),
            final(speaker)@ == queue_after(old(self)@, event@, old(speaker)@),
            final(metrics)@ == figures_after(
                old(self)@,
                old(metrics)@,
                event@,
                playing_time(old(speaker)@),
                now,
            ),
            actions.deep_view() == actions_on(
                old(self)@,
                old(metrics)@,
                event@,
                playing_time(old(speaker)@),
                now,
            ),
    {
        let ghost a = self@;
        let ghost f = metrics@;
        let ghost queued = playing_time(speaker@);
        let mut actions: Vec<Action> = Vec::new();
        match event {
            SttEvent::SpeechStarted => {
                actions = self.interrupt(speaker, metrics);
            },
            SttEvent::Interim { text, lag } => {
                metrics.interim(lag);
                actions.push(Action::Log(line_of("… ", text.as_str())));
                let mut stop = self.interrupt(speaker, metrics);
                actions.append(&mut stop);
                assert(actions.deep_view() =~= seq![ActionView::Log("… "@ + text@)]
                    + interruption(a, queued));
            },
            SttEvent::Final { text, lag } => {
                metrics.transcript_final(lag, now);
                extend(&mut self.turn, text.as_str());
                assert(actions.deep_view() =~= seq![]);
            },
            SttEvent::UtteranceEnd => {
                if self.turn.as_str().is_empty() {
                    assert(actions.deep_view() =~= seq![]);
                    return actions;
                }
                // Anything still running belongs to a turn the caller has moved past.
                let mut stop = self.interrupt(speaker, metrics);
                actions.append(&mut stop);
                actions.push(Action::Log(line_of("USER: ", self.turn.as_str())));
                if let Some(line) = metrics.utterance_end(now) {
                    actions.push(Action::Log(line));
                }
                let start = self.ask();
                actions.push(start);
                assert(actions.deep_view() =~= actions_on(a, f, event@, queued, now));
            },
        }
        actions
    }

    /// Takes in what the reply with this context reports.
    pub fn on_reply(
        &mut self,
        context_id: &str,
        event: ReplyEvent,
        metrics: &mut TurnMetrics,
        now: Moment,
    ) -> (actions: Vec<Action>)
        requires
            agent_ok(old(self)@),
        ensures
            agent_ok(final(self)@),
            final(self)@ == agent_after_reply(old(self)@, context_id@, event@),
            final(metrics)@ == figures_after_reply(
                old(self)@,
                context_id@,
                event@,
                old(metrics)@,
                now,
            ),
            actions.deep_view() == actions_on_reply(
                old(self)@,
                context_id@,
                event@,
                old(metrics)@,
                now,
            ),
    {
        let ghost a = self@;
        let ghost f = metrics@;
        let mut actions: Vec<Action> = Vec::new();
        let mut answer = match self.answer.take() {
            Some(answer) => answer,
            None => {
                assert(actions.deep_view() =~= seq![]);
                return actions;
            },
        };
        let ghost before = answer@;
        let ours = same(answer.context_id.as_str(), context_id);
        let wanted = match &event {
            ReplyEvent::Closed => Phase::Closing,
            _ => Phase::Streaming,
        };
        if ours && answer.phase == wanted {
            match event {
                ReplyEvent::Refused(error) => {
                    let _ = self.history.pop();
                    assert(self.history.deep_view() =~= a.history.drop_last());
                    answer.phase = Phase::Done;
                    actions.push(Action::Warn(line_of("llm: ", error.as_str())));
                },
                ReplyEvent::Token(token) => {
                    if answer.text.as_str().is_empty() {
                        metrics.llm_first_token(now);
                    }
                    answer.text.append(token.as_str());
                    if let Some(sentence) = answer.chunker.push(token.as_str()) {
                        actions.push(say(context_id, &mut answer.spoken, sentence, false));
                    }
                    proof {
                        lemma_token_keeps_faith(before, token@);
                    }
                },
                ReplyEvent::Broken(error) => {
                    actions.push(Action::Warn(line_of("llm: ", error.as_str())));
                    let rest = answer.chunker.flush().unwrap_or_default();
                    actions.push(say(context_id, &mut answer.spoken, rest, true));
                    answer.phase = Phase::Closing;
                    proof {
                        lemma_flush_keeps_faith(before);
                    }
                },
                ReplyEvent::Ended => {
                    let rest = answer.chunker.flush().unwrap_or_default();
                    actions.push(say(context_id, &mut answer.spoken, rest, true));
                    answer.phase = Phase::Closing;
                    proof {
                        lemma_flush_keeps_faith(before);
                    }
                },
                ReplyEvent::Closed => {
                    actions.push(Action::Log(line_of("AGENT: ", answer.text.as_str())));
                    if let Some(line) = metrics.llm_done(now) {
                        actions.push(Action::Log(line));
                    }
                    if !answer.text.as_str().is_empty() {
                        self.history.push(Message::assistant(answer.text.clone()));
                        assert(self.history.deep_view() =~= a.history.push(
                            assistant_message(answer.text@),
                        ));
                    }
                    answer.phase = Phase::Done;
                },
            }
        }
        self.answer = Some(answer);
        assert(actions.deep_view() =~= actions_on_reply(a, context_id@, event@, f, now));
        actions
    }
}

// ---- what holds of every conversation

proof fn lemma_followed_by_solid(said: Seq<char>, more: Seq<char>)
    ensures
        solid(followed_by(said, more)) == solid(said) + solid(more),
{
    let p = |c: char| !is_white_space(c);
    reveal_strlit(" ");
    reveal(Seq::filter);
    if said.len() == 0 {
        assert(said =~= seq![]);
        assert(solid(said) + solid(more) =~= solid(more));
    } else {
        Seq::filter_distributes_over_add(said + " "@, more, p);
        assert(said + " "@ =~= said.push(' '));
        assert(said.push(' ').drop_last() =~= said);
    }
}

proof fn lemma_spoken_after_solid(spoken: Seq<char>, text: Seq<char>)
    ensures
        solid(spoken_after(spoken, text)) == solid(spoken) + solid(text),
{
    if text.len() == 0 {
        reveal(Seq::filter);
        assert(solid(text) =~= seq![]);
        assert(solid(spoken) + solid(text) =~= solid(spoken));
    } else {
        lemma_followed_by_solid(spoken, text);
    }
}

proof fn lemma_token_keeps_faith(answer: AnswerView, token: Seq<char>)
    requires
        solid(answer.spoken) + solid(answer.pending) == solid(answer.text),
    ensures
        ({
            let after = answer_after(answer, ReplyEventView::Token(token));
            solid(after.spoken) + solid(after.pending) == solid(after.text)
        }),
{
    let p = |c: char| !is_white_space(c);
    let after = answer_after(answer, ReplyEventView::Token(token));
    let all = answer.pending + token;
    let text = or_nothing(said_on(answer.pending, token));
    Seq::filter_distributes_over_add(answer.text, token, p);
    Seq::filter_distributes_over_add(answer.pending, token, p);
    lemma_trimming_keeps_what_is_solid(all);
    lemma_spoken_after_solid(answer.spoken, text);
    lemma_nothing_is_solid();
    if crate::chunker::is_ready(all, token) && trimmed(all).len() == 0 {
        assert(trimmed(all) =~= seq![]);
    }
    assert(solid(after.spoken) + solid(after.pending) =~= solid(after.text));
}

proof fn lemma_flush_keeps_faith(answer: AnswerView)
    requires
        solid(answer.spoken) + solid(answer.pending) == solid(answer.text),
    ensures
        ({
            let after = answer_after(answer, ReplyEventView::Ended);
            solid(after.spoken) + solid(after.pending) == solid(after.text)
        }),
{
    let after = answer_after(answer, ReplyEventView::Ended);
    let text = or_nothing(sentence_of(answer.pending));
    lemma_trimming_keeps_what_is_solid(answer.pending);
    lemma_spoken_after_solid(answer.spoken, text);
    lemma_nothing_is_solid();
    if trimmed(answer.pending).len() == 0 {
        assert(trimmed(answer.pending) =~= seq![]);
    }
    assert(solid(after.spoken) + solid(after.pending) =~= solid(after.text));
}

/// Every event keeps a conversation in order.
pub proof fn law_conversations_stay_in_order(
    a: AgentView,
    event: EventView,
    context_id: Seq<char>,
    reply_event: ReplyEventView,
)
    requires
        agent_ok(a),
        a.last_context < u64::MAX,
    ensures
        agent_ok(agent_after(a, event)),
        agent_ok(agent_after_reply(a, context_id, reply_event)),
{
    let i = interrupted_agent(a);
    let h = i.history.push(user_message(i.turn));
    assert(recent(h)[0] == h[0]);
    assert(recent(h).last() == h.last());
    lemma_nothing_is_solid();
    lemma_reply_event_keeps_order(a, context_id, reply_event);
}

proof fn lemma_reply_event_keeps_order(
    a: AgentView,
    context_id: Seq<char>,
    event: ReplyEventView,
)
    requires
        agent_ok(a),
    ensures
        agent_ok(agent_after_reply(a, context_id, event)),
{
    if concerns(a, context_id, event) {
        match event {
            ReplyEventView::Token(token) => lemma_token_keeps_faith(a.answer->0, token),
            _ => lemma_flush_keeps_faith(a.answer->0),
        }
    }
}

/// Nothing that happens touches the system prompt.
pub proof fn law_the_system_prompt_stays(
    a: AgentView,
    event: EventView,
    context_id: Seq<char>,
    reply_event: ReplyEventView,
)
    requires
        agent_ok(a),
    ensures
        agent_after(a, event).history[0] == a.history[0],
        agent_after_reply(a, context_id, reply_event).history[0] == a.history[0],
{
    let i = interrupted_agent(a);
    let h = i.history.push(user_message(i.turn));
    assert(recent(h)[0] == h[0]);
}

/// What the model is asked ends with what the caller just said, holds the system prompt and at
/// most the messages kept besides it, and everything that is kept is the latest, in order.
pub proof fn law_the_model_sees_the_latest_messages(a: AgentView)
    requires
        agent_ok(a),
    ensures
        asked(a).history.len() <= MAX_HISTORY + 1,
        asked(a).history[0] == a.history[0],
        asked(a).history.last() == user_message(a.turn),
        forall|k: int|
            1 <= k < asked(a).history.len() ==> #[trigger] asked(a).history[asked(a).history.len()
                - k] == a.history.push(user_message(a.turn))[a.history.len() + 1 - k],
{
    let h = a.history.push(user_message(a.turn));
    assert(recent(h)[0] == h[0]);
    assert(recent(h).last() == h.last());
}

/// The moment the caller speaks while a reply is in progress, with the first sound or with words,
/// it ends: what was queued will not play, production stops, the voice drops the turn, and what
/// is remembered of the reply is what was handed to the voice.
pub proof fn law_the_caller_is_never_talked_over<F>(
    a: AgentView,
    f: Figures,
    event: EventView,
    queue: Seq<F>,
    now: Moment,
)
    requires
        agent_ok(a),
        event is SpeechStarted || event is Interim,
        a.answer is Some,
        a.answer->0.phase != Phase::Done,
    ensures
        ({
            let answer = a.answer->0;
            let after = agent_after(a, event);
            let actions = actions_on(a, f, event, playing_time(queue), now);
            &&& queue_after(a, event, queue) == Seq::<F>::empty()
            &&& after.answer is None
            &&& actions.contains(ActionView::StopReply)
            &&& actions.contains(
                ActionView::Voice(CommandView::Clear { context_id: answer.context_id }),
            )
            &&& after.history == if answer.spoken.len() > 0 {
                a.history.push(assistant_message(answer.spoken))
            } else {
                a.history
            }
        }),
{
    let actions = actions_on(a, f, event, playing_time(queue), now);
    let logged: int = if event is Interim {
        1
    } else {
        0
    };
    assert(actions[logged] == ActionView::StopReply);
    assert(actions[logged + 1] == ActionView::Voice(
        CommandView::Clear { context_id: a.answer->0.context_id },
    ));
}

/// A finished reply whose audio is still queued is cut off too, and is not recorded twice.
pub proof fn law_finished_speech_is_cut_off_too<F>(
    a: AgentView,
    f: Figures,
    event: EventView,
    queue: Seq<F>,
    now: Moment,
)
    requires
        agent_ok(a),
        event is SpeechStarted || event is Interim,
        a.answer is Some,
        a.answer->0.phase == Phase::Done,
        0 < queue.len() <= crate::audio::MAX_QUEUED,
    ensures
        ({
            let actions = actions_on(a, f, event, playing_time(queue), now);
            &&& queue_after(a, event, queue) == Seq::<F>::empty()
            &&& !actions.contains(ActionView::StopReply)
            &&& actions.contains(
                ActionView::Voice(CommandView::Clear { context_id: a.answer->0.context_id }),
            )
            &&& agent_after(a, event).history == a.history
        }),
{
    let actions = actions_on(a, f, event, playing_time(queue), now);
    let logged: int = if event is Interim {
        1
    } else {
        0
    };
    assert(playing_time(queue).nanos != 0);
    assert(actions[logged] == ActionView::Voice(
        CommandView::Clear { context_id: a.answer->0.context_id },
    ));
}

/// A new turn gets a new id: none that was given out before.
pub proof fn law_a_new_turn_gets_a_new_id(a: AgentView, earlier: nat)
    requires
        earlier <= a.last_context,
    ensures
        asked(a).last_context > a.last_context,
        context_text(asked(a).last_context) != context_text(earlier),
{
    let number = asked(a).last_context;
    lemma_decimal_reads_back(number);
    lemma_decimal_reads_back(earlier);
    let prefix = "turn-"@;
    if context_text(number) == context_text(earlier) {
        assert(context_text(number).skip(prefix.len() as int) =~= decimal_text(number));
        assert(context_text(earlier).skip(prefix.len() as int) =~= decimal_text(earlier));
        assert(false);
    }
}

/// Numbers of contexts only grow, so that an id that was given out never comes back.
pub proof fn law_ids_never_come_back(
    a: AgentView,
    event: EventView,
    context_id: Seq<char>,
    reply_event: ReplyEventView,
)
    ensures
        agent_after(a, event).last_context >= a.last_context,
        agent_after_reply(a, context_id, reply_event).last_context == a.last_context,
{
}

/// When the caller's turn ends, whatever was still running belongs to a turn the caller has moved
/// past: nothing of it is left to play, and the voice drops it before the model is asked again.
pub proof fn law_a_new_turn_ends_the_old<F>(
    a: AgentView,
    f: Figures,
    queue: Seq<F>,
    now: Moment,
)
    requires
        agent_ok(a),
        a.turn.len() > 0,
    ensures
        ({
            let actions = actions_on(a, f, EventView::UtteranceEnd, playing_time(queue), now);
            let after = agent_after(a, EventView::UtteranceEnd);
            &&& a.answer is Some ==> queue_after(a, EventView::UtteranceEnd, queue) == Seq::<
                F,
            >::empty()
            &&& a.answer is Some && a.answer->0.phase != Phase::Done ==> actions[0]
                == ActionView::StopReply && actions[1] == ActionView::Voice(
                CommandView::Clear { context_id: a.answer->0.context_id },
            )
            &&& actions.len() > 0
            &&& actions.last() == (ActionView::StartReply {
                messages: after.history,
                context_id: after.answer->0.context_id,
            })
            &&& after.history.last() == user_message(a.turn)
            &&& after.turn == Seq::<char>::empty()
        }),
{
    law_the_model_sees_the_latest_messages(interrupted_agent(a));
}

/// Once a reply was stopped, nothing it still reports has any effect: not while the caller
/// speaks, and not on the turn that follows.
pub proof fn law_a_stopped_reply_has_no_say(
    a: AgentView,
    event: ReplyEventView,
    f: Figures,
    now: Moment,
)
    requires
        agent_ok(a),
        a.answer is Some,
    ensures
        ({
            let context_id = a.answer->0.context_id;
            let stopped = interrupted_agent(a);
            let next = asked(stopped);
            &&& agent_after_reply(stopped, context_id, event) == stopped
            &&& actions_on_reply(stopped, context_id, event, f, now) == Seq::<ActionView>::empty()
            &&& figures_after_reply(stopped, context_id, event, f, now) == f
            &&& agent_after_reply(next, context_id, event) == next
            &&& actions_on_reply(next, context_id, event, f, now) == Seq::<ActionView>::empty()
            &&& figures_after_reply(next, context_id, event, f, now) == f
        }),
{
    law_a_new_turn_gets_a_new_id(interrupted_agent(a), a.last_context);
}

/// A question that the model could not be asked leaves the history as it was, unless it had
/// already pushed the oldest message out.
pub proof fn law_a_refused_question_leaves_no_trace(a: AgentView, error: Seq<char>)
    requires
        agent_ok(a),
        a.history.len() <= MAX_HISTORY,
    ensures
        agent_after_reply(
            asked(a),
            asked(a).answer->0.context_id,
            ReplyEventView::Refused(error),
        ).history == a.history,
{
    let h = a.history.push(user_message(a.turn));
    assert(h.drop_last() =~= a.history);
}

/// By the time a reply's context is closed, the voice was given all that the model wrote, and
/// that is what is remembered.
pub proof fn law_a_closed_reply_was_spoken_whole(a: AgentView, context_id: Seq<char>)
    requires
        agent_ok(a),
        concerns(a, context_id, ReplyEventView::Closed),
    ensures
        solid(a.answer->0.spoken) == solid(a.answer->0.text),
        a.answer->0.text.len() > 0 ==> agent_after_reply(
            a,
            context_id,
            ReplyEventView::Closed,
        ).history.last() == assistant_message(a.answer->0.text),
{
    let answer = a.answer->0;
    assert(answer.pending =~= seq![]);
    reveal(Seq::filter);
    assert(solid(answer.pending) =~= seq![]);
    assert(solid(answer.spoken) + solid(answer.pending) =~= solid(answer.spoken));
}

/// How many of these actions close a context.
pub open spec fn closings(actions: Seq<ActionView>) -> nat
    decreases actions.len(),
{
    if actions.len() == 0 {
        0
    } else {
        closings(actions.drop_last()) + match actions.last() {
            ActionView::Voice(CommandView::Speak { end: true, .. }) => 1nat,
            _ => 0nat,
        }
    }
}

/// All that these actions have spoken, run together.
pub open spec fn voiced(actions: Seq<ActionView>) -> Seq<char>
    decreases actions.len(),
{
    if actions.len() == 0 {
        seq![]
    } else {
        voiced(actions.drop_last()) + match actions.last() {
            ActionView::Voice(CommandView::Speak { text, .. }) => text,
            _ => seq![],
        }
    }
}

/// What has become of a conversation, its figures and its actions.
pub struct Course {
    pub agent: AgentView,
    pub figures: Figures,
    pub actions: Seq<ActionView>,
}

/// A conversation after a run of events of a reply, each with its moment, and all that they
/// asked for.
pub open spec fn reply_over(
    a: AgentView,
    f: Figures,
    context_id: Seq<char>,
    events: Seq<(ReplyEventView, Moment)>,
) -> Course
    decreases events.len(),
{
    if events.len() == 0 {
        Course { agent: a, figures: f, actions: seq![] }
    } else {
        let before = reply_over(a, f, context_id, events.drop_last());
        let (event, now) = events.last();
        Course {
            agent: agent_after_reply(before.agent, context_id, event),
            figures: figures_after_reply(before.agent, context_id, event, before.figures, now),
            actions: before.actions + actions_on_reply(
                before.agent,
                context_id,
                event,
                before.figures,
                now,
            ),
        }
    }
}

proof fn lemma_closings_add(a: Seq<ActionView>, b: Seq<ActionView>)
    ensures
        closings(a + b) == closings(a) + closings(b),
    decreases b.len(),
{
    if b.len() == 0 {
        assert(a + b =~= a);
    } else {
        lemma_closings_add(a, b.drop_last());
        assert((a + b).drop_last() =~= a + b.drop_last());
    }
}

proof fn lemma_voiced_add(a: Seq<ActionView>, b: Seq<ActionView>)
    ensures
        voiced(a + b) == voiced(a) + voiced(b),
    decreases b.len(),
{
    if b.len() == 0 {
        assert(a + b =~= a);
        assert(voiced(a) + voiced(b) =~= voiced(a));
    } else {
        lemma_voiced_add(a, b.drop_last());
        assert((a + b).drop_last() =~= a + b.drop_last());
        assert(voiced(a + b) =~= voiced(a) + voiced(b));
    }
}

/// What the actions on one event of a reply close and have spoken.
proof fn lemma_one_reply_event(
    a: AgentView,
    context_id: Seq<char>,
    event: ReplyEventView,
    f: Figures,
    now: Moment,
)
    ensures
        ({
            let actions = actions_on_reply(a, context_id, event, f, now);
            let ours = concerns(a, context_id, event);
            let pending = a.answer->0.pending;
            &&& closings(actions) == if ours && (event is Ended || event is Broken) {
                1nat
            } else {
                0nat
            }
            &&& voiced(actions) == if !ours {
                seq![]
            } else {
                match event {
                    ReplyEventView::Token(token) => or_nothing(said_on(pending, token)),
                    ReplyEventView::Ended | ReplyEventView::Broken(_) => or_nothing(
                        sentence_of(pending),
                    ),
                    _ => seq![],
                }
            }
        }),
{
    let actions = actions_on_reply(a, context_id, event, f, now);
    reveal_with_fuel(closings, 3);
    reveal_with_fuel(voiced, 3);
    if actions.len() == 2 {
        assert(actions.drop_last() =~= seq![actions[0]]);
        assert(seq![actions[0]].drop_last() =~= seq![]);
    } else if actions.len() == 1 {
        assert(actions.drop_last() =~= seq![]);
    }
}

/// Whatever a reply reports and in whatever order, its context is closed at most once: not while
/// its stream is open, exactly once when the stream ended, and never again after that.
pub proof fn law_a_context_is_closed_once(
    a: AgentView,
    f: Figures,
    context_id: Seq<char>,
    events: Seq<(ReplyEventView, Moment)>,
)
    requires
        a.answer is Some,
        a.answer->0.context_id == context_id,
        a.answer->0.phase == Phase::Streaming,
    ensures
        ({
            let after = reply_over(a, f, context_id, events);
            let refused = exists|i: int| 0 <= i < events.len() && (#[trigger] events[i]).0 is Refused;
            &&& after.agent.answer is Some
            &&& after.agent.answer->0.context_id == context_id
            &&& closings(after.actions) <= 1
            &&& after.agent.answer->0.phase == Phase::Streaming ==> closings(after.actions) == 0
            &&& after.agent.answer->0.phase == Phase::Closing ==> closings(after.actions) == 1
            &&& !refused && after.agent.answer->0.phase != Phase::Streaming ==> closings(
                after.actions,
            ) == 1
        }),
    decreases events.len(),
{
    if events.len() > 0 {
        let earlier = events.drop_last();
        let before = reply_over(a, f, context_id, earlier);
        let (event, now) = events.last();
        law_a_context_is_closed_once(a, f, context_id, earlier);
        lemma_one_reply_event(before.agent, context_id, event, before.figures, now);
        let more = actions_on_reply(before.agent, context_id, event, before.figures, now);
        lemma_closings_add(before.actions, more);
        assert(events[events.len() - 1] == events.last());
        assert forall|i: int| 0 <= i < earlier.len() && (#[trigger] earlier[i]).0 is Refused implies (
        exists|j: int| 0 <= j < events.len() && (#[trigger] events[j]).0 is Refused) by {
            assert(events[i].0 is Refused);
        }
    }
}

/// The voice is given what the model writes, in order and nothing else: at every moment what it
/// was given is what has been taken for spoken, and once the stream has ended it is all of the
/// reply, save for white space.
pub proof fn law_the_voice_gets_what_the_model_wrote(
    a: AgentView,
    f: Figures,
    context_id: Seq<char>,
    events: Seq<(ReplyEventView, Moment)>,
)
    requires
        agent_ok(a),
        a.answer == Some(fresh_answer(context_id)),
    ensures
        ({
            let after = reply_over(a, f, context_id, events);
            let answer = after.agent.answer->0;
            &&& after.agent.answer is Some
            &&& solid(voiced(after.actions)) == solid(answer.spoken)
            &&& answer.phase == Phase::Closing ==> solid(voiced(after.actions)) == solid(
                answer.text,
            )
        }),
    decreases events.len(),
{
    lemma_reply_keeps_order(a, f, context_id, events);
    lemma_nothing_is_solid();
    let after = reply_over(a, f, context_id, events);
    if events.len() > 0 {
        let p = |c: char| !is_white_space(c);
        let before = reply_over(a, f, context_id, events.drop_last());
        let (event, now) = events.last();
        law_the_voice_gets_what_the_model_wrote(a, f, context_id, events.drop_last());
        lemma_one_reply_event(before.agent, context_id, event, before.figures, now);
        let more = actions_on_reply(before.agent, context_id, event, before.figures, now);
        lemma_voiced_add(before.actions, more);
        Seq::filter_distributes_over_add(voiced(before.actions), voiced(more), p);
        let spoken = before.agent.answer->0.spoken;
        lemma_spoken_after_solid(spoken, voiced(more));
        assert(solid(after.agent.answer->0.spoken) =~= solid(spoken) + solid(voiced(more)));
    }
    if after.agent.answer->0.phase == Phase::Closing {
        let answer = after.agent.answer->0;
        assert(answer.pending =~= seq![]);
        assert(solid(answer.spoken) + solid(answer.pending) =~= solid(answer.spoken));
    }
}

proof fn lemma_reply_keeps_order(
    a: AgentView,
    f: Figures,
    context_id: Seq<char>,
    events: Seq<(ReplyEventView, Moment)>,
)
    requires
        agent_ok(a),
        a.answer is Some,
    ensures
        agent_ok(reply_over(a, f, context_id, events).agent),
        reply_over(a, f, context_id, events).agent.answer is Some,
    decreases events.len(),
{
    if events.len() > 0 {
        lemma_reply_keeps_order(a, f, context_id, events.drop_last());
        let before = reply_over(a, f, context_id, events.drop_last());
        lemma_reply_event_keeps_order(before.agent, context_id, events.last().0);
    }
}

// ---- what holds of every event

/// A stable segment joins the caller's turn, after a space where something was said before; and
/// that is all it does.
pub proof fn law_a_segment_joins_the_turn<F>(
    agent: &mut Agent,
    text: String,
    lag: Option<Span>,
    speaker: &mut Speaker<F>,
    metrics: &mut TurnMetrics,
    now: Moment,
    actions: Vec<Action>,
)
    requires
        agent_ok(old(agent)@),
        call_ensures(
            Agent::on_stt::<F>,
            (agent, SttEvent::Final { text, lag }, speaker, metrics, now),
            actions,
        ),
    ensures
        final(agent)@.turn == if old(agent)@.turn.len() == 0 {
            text@
        } else {
            old(agent)@.turn + " "@ + text@
        },
        final(agent)@.history == old(agent)@.history,
        final(agent)@.answer == old(agent)@.answer,
        final(agent)@.last_context == old(agent)@.last_context,
        final(speaker)@ == old(speaker)@,
        final(metrics)@ == (Figures { last_final: Some((now, lag)), ..old(metrics)@ }),
        actions@.len() == 0,
{
    assert(actions.deep_view().len() == actions@.len());
}

/// What stops a reply in progress: its production, where it is still being produced, and then its
/// context and its audio, where there is anything to cut off. Each frame that is dropped would
/// have played for 20 ms.
pub open spec fn stopping(answer: Option<AnswerView>, frames: nat) -> Seq<ActionView> {
    match answer {
        Some(reply) => (if reply.phase != Phase::Done {
            seq![ActionView::StopReply]
        } else {
            seq![]
        }) + (if reply.phase != Phase::Done || frames > 0 {
            seq![
                ActionView::Voice(CommandView::Clear { context_id: reply.context_id }),
                ActionView::Log(
                    "barge-in: dropped "@ + (decimal_text(frames * 20) + " ms"@)
                        + " of queued speech"@,
                ),
            ]
        } else {
            seq![]
        }),
        None => seq![],
    }
}

/// What is remembered after a reply was stopped: what was handed to the voice of one that was
/// still being produced, if anything was.
pub open spec fn remembered(a: AgentView) -> Seq<MessageView> {
    if a.answer is Some && a.answer->0.phase != Phase::Done && a.answer->0.spoken.len() > 0 {
        a.history.push(MessageView { role: "assistant"@, content: a.answer->0.spoken })
    } else {
        a.history
    }
}

proof fn lemma_interruption_is_stopping(a: AgentView, frames: nat)
    requires
        frames <= 1_500,
    ensures
        interruption(a, Span { nanos: (frames * FRAME_MILLIS * 1_000_000) as u128 }) == stopping(
            a.answer,
            frames,
        ),
        interrupted_agent(a).history == remembered(a),
{
    let queued = Span { nanos: (frames * FRAME_MILLIS * 1_000_000) as u128 };
    assert(queued.nanos == frames * 20_000_000);
    assert((frames * 20_000_000) / 1_000_000 == frames * 20);
    assert(queued.nanos == 0 <==> frames == 0);
    assert(interruption(a, queued) =~= stopping(a.answer, frames));
}

/// The caller's voice, as a first sound or as words that are still uncertain, stops a reply in
/// progress: nothing of it is left to play, and only what was handed to the voice is remembered.
/// It leaves what the caller has said in this turn as it was.
pub proof fn law_the_callers_voice_stops_a_reply<F>(
    agent: &mut Agent,
    event: SttEvent,
    speaker: &mut Speaker<F>,
    metrics: &mut TurnMetrics,
    now: Moment,
    actions: Vec<Action>,
)
    requires
        agent_ok(old(agent)@),
        old(speaker)@.len() <= 1_500,
        event is SpeechStarted || event is Interim,
        call_ensures(Agent::on_stt::<F>, (agent, event, speaker, metrics, now), actions),
    ensures
        final(agent)@.turn == old(agent)@.turn,
        final(agent)@.history == remembered(old(agent)@),
        final(agent)@.answer is None,
        final(agent)@.last_context == old(agent)@.last_context,
        final(speaker)@ == if old(agent)@.answer is Some {
            Seq::<F>::empty()
        } else {
            old(speaker)@
        },
        actions.deep_view() == (match event {
            SttEvent::Interim { text, .. } => seq![ActionView::Log("… "@ + text@)],
            _ => seq![],
        }) + stopping(old(agent)@.answer, old(speaker)@.len()),
        ({
            let cut = old(agent)@.answer is Some && (old(agent)@.answer->0.phase != Phase::Done
                || old(speaker)@.len() > 0);
            let f = old(metrics)@;
            let g = final(metrics)@;
            &&& g.turn_ended == if cut {
                None
            } else {
                f.turn_ended
            }
            &&& g.reply_started == if cut {
                None
            } else {
                f.reply_started
            }
            &&& g.llm_first_token == if cut {
                None
            } else {
                f.llm_first_token
            }
            &&& g.last_final == f.last_final
            &&& match event {
                SttEvent::Interim { lag: Some(lag), .. } => g.partials == f.partials.push(lag)
                    && g.partials_unknown == f.partials_unknown,
                SttEvent::Interim { lag: None, .. } => g.partials == f.partials
                    && g.partials_unknown == f.partials_unknown + 1,
                _ => g.partials == f.partials && g.partials_unknown == f.partials_unknown,
            }
        }),
{
    lemma_interruption_is_stopping(old(agent)@, old(speaker)@.len());
    assert(actions.deep_view() =~= (match event {
        SttEvent::Interim { text, .. } => seq![ActionView::Log("… "@ + text@)],
        _ => seq![],
    }) + stopping(old(agent)@.answer, old(speaker)@.len()));
}

/// The end of speech, where nothing was said, changes nothing.
pub proof fn law_silence_is_no_turn<F>(
    agent: &mut Agent,
    speaker: &mut Speaker<F>,
    metrics: &mut TurnMetrics,
    now: Moment,
    actions: Vec<Action>,
)
    requires
        agent_ok(old(agent)@),
        old(agent)@.turn.len() == 0,
        call_ensures(
            Agent::on_stt::<F>,
            (agent, SttEvent::UtteranceEnd, speaker, metrics, now),
            actions,
        ),
    ensures
        final(agent)@ == old(agent)@,
        final(speaker)@ == old(speaker)@,
        final(metrics)@ == old(metrics)@,
        actions@.len() == 0,
{
    assert(actions.deep_view().len() == actions@.len());
}

/// When the caller has spoken, the model is asked: what was still running is stopped first, and
/// then it is given the system prompt and the latest 40 messages, of which the last is what the
/// caller said in this turn, word for word. The reply starts from nothing, under an id with a
/// number greater than any before.
pub proof fn law_the_end_of_a_turn_asks_the_model<F>(
    agent: &mut Agent,
    speaker: &mut Speaker<F>,
    metrics: &mut TurnMetrics,
    now: Moment,
    actions: Vec<Action>,
    same_metrics: &mut TurnMetrics,
    line: Option<String>,
)
    requires
        agent_ok(old(agent)@),
        old(agent)@.turn.len() > 0,
        old(speaker)@.len() <= 1_500,
        call_ensures(
            Agent::on_stt::<F>,
            (agent, SttEvent::UtteranceEnd, speaker, metrics, now),
            actions,
        ),
        old(same_metrics)@ == old(metrics)@,
        call_ensures(TurnMetrics::utterance_end, (same_metrics, now), line),
    ensures
        ({
            let a = old(agent)@;
            let after = final(agent)@;
            let all = remembered(a).push(MessageView { role: "user"@, content: a.turn });
            let number = after.last_context;
            let id = "turn-"@ + decimal_text(number);
            &&& after.turn.len() == 0
            &&& after.history.len() == if all.len() <= 41 {
                all.len()
            } else {
                41
            }
            &&& after.history[0] == all[0]
            &&& forall|k: int|
                1 <= k <= 40 && k < after.history.len() ==> #[trigger] after.history[after.history.len()
                    - k] == all[all.len() - k]
            &&& number > a.last_context
            &&& after.history.len() > a.last_context ==> number == after.history.len()
            &&& after.answer is Some
            &&& after.answer->0.context_id == id
            &&& after.answer->0.phase == Phase::Streaming
            &&& after.answer->0.text.len() == 0
            &&& after.answer->0.spoken.len() == 0
            &&& after.answer->0.pending.len() == 0
            &&& final(speaker)@ == if a.answer is Some {
                Seq::<F>::empty()
            } else {
                old(speaker)@
            }
            &&& final(metrics)@ == final(same_metrics)@
            &&& actions.deep_view() == stopping(a.answer, old(speaker)@.len()) + seq![
                ActionView::Log("USER: "@ + a.turn),
            ] + (match line {
                Some(l) => seq![ActionView::Log(l@)],
                None => seq![],
            }) + seq![ActionView::StartReply { messages: after.history, context_id: id }]
        }),
{
    let a = old(agent)@;
    let f = old(metrics)@;
    lemma_interruption_is_stopping(a, old(speaker)@.len());
    law_the_model_sees_the_latest_messages(interrupted_agent(a));
    law_an_interruption_stops_the_clock(f, now);
    let all = remembered(a).push(MessageView { role: "user"@, content: a.turn });
    let after = final(agent)@;
    assert(after.history == recent(all));
    assert forall|k: int| 1 <= k <= 40 && k < after.history.len() implies #[trigger] after.history[after.history.len()
        - k] == all[all.len() - k] by {}
    let id = "turn-"@ + decimal_text(after.last_context);
    assert(actions.deep_view() =~= stopping(a.answer, old(speaker)@.len()) + seq![
        ActionView::Log("USER: "@ + a.turn),
    ] + (match line {
        Some(l) => seq![ActionView::Log(l@)],
        None => seq![],
    }) + seq![ActionView::StartReply { messages: after.history, context_id: id }]);
}

/// One thing that happens to a conversation.
pub enum Step {
    Heard(EventView),
    Replied(Seq<char>, ReplyEventView),
}

/// A conversation after a run of such things.
pub open spec fn agent_over(a: AgentView, steps: Seq<Step>) -> AgentView
    decreases steps.len(),
{
    if steps.len() == 0 {
        a
    } else {
        let before = agent_over(a, steps.drop_last());
        match steps.last() {
            Step::Heard(event) => agent_after(before, event),
            Step::Replied(context_id, event) => agent_after_reply(before, context_id, event),
        }
    }
}

/// The texts of the stable segments in a run, in order.
pub open spec fn segments(steps: Seq<Step>) -> Seq<Seq<char>>
    decreases steps.len(),
{
    if steps.len() == 0 {
        seq![]
    } else {
        match steps.last() {
            Step::Heard(EventView::Final { text, .. }) => segments(steps.drop_last()).push(text),
            _ => segments(steps.drop_last()),
        }
    }
}

/// Over any run of things between two ends of turn, whatever else is heard or replied, the
/// caller's turn is the texts of all stable segments, in order and with single spaces between
/// them; and that text is what the model is asked last when the turn ends.
pub proof fn law_a_turn_is_all_its_segments(a: AgentView, steps: Seq<Step>)
    requires
        a.turn.len() == 0,
        forall|i: int|
            0 <= i < steps.len() ==> match #[trigger] steps[i] {
                Step::Heard(EventView::UtteranceEnd) => false,
                Step::Heard(EventView::Final { text, .. }) => text.len() > 0,
                _ => true,
            },
    ensures
        agent_over(a, steps).turn == joined(segments(steps), " "@),
        segments(steps).len() > 0 ==> {
            let asked = agent_after(agent_over(a, steps), EventView::UtteranceEnd);
            asked.turn.len() == 0 && (agent_ok(agent_over(a, steps)) ==> asked.history.last() == (
            MessageView { role: "user"@, content: joined(segments(steps), " "@) }))
        },
    decreases steps.len(),
{
    if steps.len() > 0 {
        let before = steps.drop_last();
        assert forall|i: int| 0 <= i < before.len() implies match #[trigger] before[i] {
            Step::Heard(EventView::UtteranceEnd) => false,
            Step::Heard(EventView::Final { text, .. }) => text.len() > 0,
            _ => true,
        } by {
            assert(before[i] == steps[i]);
        }
        law_a_turn_is_all_its_segments(a, before);
        lemma_segments_say_something(before);
        assert(steps[steps.len() - 1] == steps.last());
        let said = segments(before);
        if let Step::Heard(EventView::Final { text, .. }) = steps.last() {
            assert(said.push(text).drop_last() =~= said);
            assert(said.len() == 0 ==> joined(said, " "@).len() == 0);
        }
    }
    lemma_segments_say_something(steps);
    let whole = agent_over(a, steps);
    if segments(steps).len() > 0 && agent_ok(whole) {
        law_the_model_sees_the_latest_messages(interrupted_agent(whole));
    }
}

proof fn lemma_segments_say_something(steps: Seq<Step>)
    requires
        forall|i: int|
            0 <= i < steps.len() ==> match #[trigger] steps[i] {
                Step::Heard(EventView::UtteranceEnd) => false,
                Step::Heard(EventView::Final { text, .. }) => text.len() > 0,
                _ => true,
            },
    ensures
        segments(steps).len() > 0 ==> joined(segments(steps), " "@).len() > 0,
    decreases steps.len(),
{
    if steps.len() > 0 {
        let before = steps.drop_last();
        assert forall|i: int| 0 <= i < before.len() implies match #[trigger] before[i] {
            Step::Heard(EventView::UtteranceEnd) => false,
            Step::Heard(EventView::Final { text, .. }) => text.len() > 0,
            _ => true,
        } by {
            assert(before[i] == steps[i]);
        }
        lemma_segments_say_something(before);
        assert(steps[steps.len() - 1] == steps.last());
    }
}

/// A report of a reply that is not the one in progress, or of one that is done, changes nothing;
/// and so does the news that the last message was handed over, before all tokens are in, and
/// anything else after that.
pub proof fn law_only_the_reply_in_progress_counts(
    agent: &mut Agent,
    context_id: &str,
    event: ReplyEvent,
    metrics: &mut TurnMetrics,
    now: Moment,
    actions: Vec<Action>,
)
    requires
        agent_ok(old(agent)@),
        call_ensures(Agent::on_reply, (agent, context_id, event, metrics, now), actions),
        old(agent)@.answer matches Some(answer) ==> {
            ||| answer.context_id != context_id@
            ||| answer.phase == Phase::Done
            ||| answer.phase == Phase::Streaming && event is Closed
            ||| answer.phase == Phase::Closing && !(event is Closed)
        },
    ensures
        final(agent)@ == old(agent)@,
        final(metrics)@ == old(metrics)@,
        actions@.len() == 0,
{
    assert(actions.deep_view().len() == actions@.len());
}

/// A token adds to the reply, character for character, and goes through the chunker: what the
/// chunker says of it is spoken at once, in the reply's context and not as its last, and counts as
/// spoken after a space. The first token starts no clock but is dated.
pub proof fn law_a_token_adds_to_the_reply(
    agent: &mut Agent,
    context_id: &str,
    token: String,
    metrics: &mut TurnMetrics,
    now: Moment,
    actions: Vec<Action>,
    chunker: &mut Chunker,
    slice: &str,
    said: Option<String>,
)
    requires
        agent_ok(old(agent)@),
        old(agent)@.answer is Some,
        old(agent)@.answer->0.context_id == context_id@,
        old(agent)@.answer->0.phase == Phase::Streaming,
        call_ensures(
            Agent::on_reply,
            (agent, context_id, ReplyEvent::Token(token), metrics, now),
            actions,
        ),
        old(chunker)@ == old(agent)@.answer->0.pending,
        slice@ == token@,
        call_ensures(Chunker::push, (chunker, slice), said),
    ensures
        ({
            let before = old(agent)@.answer->0;
            let after = final(agent)@.answer->0;
            &&& final(agent)@.answer is Some
            &&& final(agent)@.history == old(agent)@.history
            &&& final(agent)@.turn == old(agent)@.turn
            &&& final(agent)@.last_context == old(agent)@.last_context
            &&& after.context_id == context_id@
            &&& after.phase == Phase::Streaming
            &&& after.text == before.text + token@
            &&& after.pending == final(chunker)@
            &&& match said {
                Some(text) => {
                    &&& actions.deep_view() == seq![
                        ActionView::Voice(
                            CommandView::Speak { text: text@, context_id: context_id@, end: false },
                        ),
                    ]
                    &&& after.spoken == if before.spoken.len() == 0 {
                        text@
                    } else {
                        before.spoken + " "@ + text@
                    }
                },
                None => actions@.len() == 0 && after.spoken == before.spoken,
            }
        }),
        old(agent)@.answer->0.text.len() > 0 ==> final(metrics)@ == old(metrics)@,
        old(agent)@.answer->0.text.len() == 0 ==> final(metrics)@ == (Figures {
            llm_first_token: final(metrics)@.llm_first_token,
            ..old(metrics)@
        }) && (final(metrics)@.llm_first_token is Some <==> old(metrics)@.reply_started is Some),
        old(agent)@.answer->0.text.len() == 0 && old(metrics)@.reply_started is Some
            && old(metrics)@.reply_started->0.nanos <= now.nanos
            ==> old(metrics)@.reply_started->0.nanos + final(metrics)@.llm_first_token->0.nanos
            == now.nanos,
{
    assert(actions.deep_view().len() == actions@.len());
    law_sentences_are_clean(old(agent)@.answer->0.pending + token@);
}

/// When the stream of a reply ends, or breaks, what the chunker still holds is spoken as the last
/// message of its context, even where that is nothing; and a break is warned of. The history waits
/// until that message was handed over.
pub proof fn law_the_end_of_a_stream_closes_its_context(
    agent: &mut Agent,
    context_id: &str,
    event: ReplyEvent,
    metrics: &mut TurnMetrics,
    now: Moment,
    actions: Vec<Action>,
    chunker: &mut Chunker,
    said: Option<String>,
)
    requires
        agent_ok(old(agent)@),
        old(agent)@.answer is Some,
        old(agent)@.answer->0.context_id == context_id@,
        old(agent)@.answer->0.phase == Phase::Streaming,
        event is Ended || event is Broken,
        call_ensures(Agent::on_reply, (agent, context_id, event, metrics, now), actions),
        old(chunker)@ == old(agent)@.answer->0.pending,
        call_ensures(Chunker::flush, (chunker,), said),
    ensures
        ({
            let before = old(agent)@.answer->0;
            let after = final(agent)@.answer->0;
            let rest = match said {
                Some(text) => text@,
                None => seq![],
            };
            &&& final(agent)@.answer is Some
            &&& final(agent)@.history == old(agent)@.history
            &&& final(agent)@.turn == old(agent)@.turn
            &&& final(agent)@.last_context == old(agent)@.last_context
            &&& after.context_id == context_id@
            &&& after.phase == Phase::Closing
            &&& after.text == before.text
            &&& after.pending.len() == 0
            &&& after.spoken == if said is None {
                before.spoken
            } else if before.spoken.len() == 0 {
                rest
            } else {
                before.spoken + " "@ + rest
            }
            &&& actions.deep_view() == (match event {
                ReplyEvent::Broken(error) => seq![ActionView::Warn("llm: "@ + error@)],
                _ => seq![],
            }) + seq![
                ActionView::Voice(
                    CommandView::Speak { text: rest, context_id: context_id@, end: true },
                ),
            ]
            &&& final(metrics)@ == old(metrics)@
        }),
{
    let rest = match said {
        Some(text) => text@,
        None => seq![],
    };
    law_sentences_are_clean(old(agent)@.answer->0.pending);
    assert(actions.deep_view() =~= (match event {
        ReplyEvent::Broken(error) => seq![ActionView::Warn("llm: "@ + error@)],
        _ => seq![],
    }) + seq![
        ActionView::Voice(CommandView::Speak { text: rest, context_id: context_id@, end: true }),
    ]);
}

/// Once the last message was handed over, the reply is remembered word for word, if it has any,
/// and reported with what the model cost.
pub proof fn law_a_finished_reply_is_remembered(
    agent: &mut Agent,
    context_id: &str,
    metrics: &mut TurnMetrics,
    now: Moment,
    actions: Vec<Action>,
    same_metrics: &mut TurnMetrics,
    line: Option<String>,
)
    requires
        agent_ok(old(agent)@),
        old(agent)@.answer is Some,
        old(agent)@.answer->0.context_id == context_id@,
        old(agent)@.answer->0.phase == Phase::Closing,
        call_ensures(
            Agent::on_reply,
            (agent, context_id, ReplyEvent::Closed, metrics, now),
            actions,
        ),
        old(same_metrics)@ == old(metrics)@,
        call_ensures(TurnMetrics::llm_done, (same_metrics, now), line),
    ensures
        ({
            let text = old(agent)@.answer->0.text;
            &&& final(agent)@.history == if text.len() > 0 {
                old(agent)@.history.push(MessageView { role: "assistant"@, content: text })
            } else {
                old(agent)@.history
            }
            &&& final(agent)@.turn == old(agent)@.turn
            &&& final(agent)@.last_context == old(agent)@.last_context
            &&& final(agent)@.answer == Some(
                AnswerView { phase: Phase::Done, ..old(agent)@.answer->0 },
            )
            &&& actions.deep_view() == seq![ActionView::Log("AGENT: "@ + text)] + (match line {
                Some(l) => seq![ActionView::Log(l@)],
                None => seq![],
            })
            &&& final(metrics)@ == old(metrics)@
        }),
{
}

/// A question that the model could not be asked is taken back, and warned of.
pub proof fn law_a_refused_question_is_taken_back(
    agent: &mut Agent,
    context_id: &str,
    error: String,
    metrics: &mut TurnMetrics,
    now: Moment,
    actions: Vec<Action>,
)
    requires
        agent_ok(old(agent)@),
        old(agent)@.answer is Some,
        old(agent)@.answer->0.context_id == context_id@,
        old(agent)@.answer->0.phase == Phase::Streaming,
        call_ensures(
            Agent::on_reply,
            (agent, context_id, ReplyEvent::Refused(error), metrics, now),
            actions,
        ),
    ensures
        old(agent)@.history.last().role == "user"@,
        final(agent)@.history.push(old(agent)@.history.last()) == old(agent)@.history,
        final(agent)@.turn == old(agent)@.turn,
        final(agent)@.last_context == old(agent)@.last_context,
        final(agent)@.answer == Some(AnswerView { phase: Phase::Done, ..old(agent)@.answer->0 }),
        actions.deep_view() == seq![ActionView::Warn("llm: "@ + error@)],
        final(metrics)@ == old(metrics)@,
{
    assert(old(agent)@.history.drop_last().push(old(agent)@.history.last()) =~= old(
        agent,
    )@.history);
}

/// The sentences that these actions have spoken: text, context, and whether it is the last.
pub open spec fn speeches(actions: Seq<ActionView>) -> Seq<(Seq<char>, Seq<char>, bool)>
    decreases actions.len(),
{
    if actions.len() == 0 {
        seq![]
    } else {
        match actions.last() {
            ActionView::Voice(CommandView::Speak { text, context_id, end }) => speeches(
                actions.drop_last(),
            ).push((text, context_id, end)),
            _ => speeches(actions.drop_last()),
        }
    }
}

proof fn lemma_speeches_add(a: Seq<ActionView>, b: Seq<ActionView>)
    ensures
        speeches(a + b) == speeches(a) + speeches(b),
    decreases b.len(),
{
    if b.len() == 0 {
        assert(a + b =~= a);
        assert(speeches(a) + speeches(b) =~= speeches(a));
    } else {
        lemma_speeches_add(a, b.drop_last());
        assert((a + b).drop_last() =~= a + b.drop_last());
        assert(speeches(a + b) =~= speeches(a) + speeches(b));
    }
}

/// The sentences of a reply, as they are spoken while it goes on.
pub open spec fn going_on(sentences: Seq<Seq<char>>, context_id: Seq<char>) -> Seq<
    (Seq<char>, Seq<char>, bool),
> {
    sentences.map_values(|text: Seq<char>| (text, context_id, false))
}

/// While a reply streams in, its text is its tokens run together, and what is spoken of it is the
/// sentences that those tokens make, one by one and in order.
pub proof fn law_a_streaming_reply_is_its_tokens(
    a: AgentView,
    f: Figures,
    context_id: Seq<char>,
    tokens: Seq<Seq<char>>,
    times: Seq<Moment>,
)
    requires
        a.answer == Some(fresh_answer(context_id)),
        tokens.len() == times.len(),
    ensures
        ({
            let events = Seq::new(
                tokens.len(),
                |i: int| (ReplyEventView::Token(tokens[i]), times[i]),
            );
            let course = reply_over(a, f, context_id, events);
            &&& course.agent.history == a.history
            &&& course.agent.turn == a.turn
            &&& course.agent.last_context == a.last_context
            &&& course.agent.answer == Some(
                AnswerView {
                    context_id,
                    pending: held_over(tokens),
                    text: joined(tokens, seq![]),
                    spoken: joined(said_over(tokens), " "@),
                    phase: Phase::Streaming,
                },
            )
            &&& speeches(course.actions) == going_on(said_over(tokens), context_id)
            &&& course.actions.len() == said_over(tokens).len()
        }),
    decreases tokens.len(),
{
    let events = Seq::new(tokens.len(), |i: int| (ReplyEventView::Token(tokens[i]), times[i]));
    let course = reply_over(a, f, context_id, events);
    if tokens.len() == 0 {
        assert(events =~= seq![]);
        assert(course.actions =~= seq![]);
        assert(going_on(said_over(tokens), context_id) =~= seq![]);
        assert(joined(tokens, seq![]) =~= seq![]);
        assert(joined(said_over(tokens), " "@) =~= seq![]);
        assert(held_over(tokens) =~= seq![]);
    } else {
        let before = tokens.drop_last();
        let token = tokens.last();
        law_a_streaming_reply_is_its_tokens(a, f, context_id, before, times.drop_last());
        let earlier = Seq::new(
            before.len(),
            |i: int| (ReplyEventView::Token(before[i]), times.drop_last()[i]),
        );
        assert(events.drop_last() =~= earlier);
        let prior = reply_over(a, f, context_id, earlier);
        let now = times.last();
        let event = ReplyEventView::Token(token);
        assert(events.last() == (event, now));
        let more = actions_on_reply(prior.agent, context_id, event, prior.figures, now);
        lemma_speeches_add(prior.actions, more);
        lemma_joined_push(before, token);
        assert(before.push(token) =~= tokens);
        lemma_sentences_say_something(before);
        reveal_with_fuel(speeches, 2);
        let held = held_over(before);
        law_sentences_are_clean(held + token);
        match said_on(held, token) {
            Some(text) => {
                let said = said_over(before);
                assert(more =~= seq![speaking(context_id, text, false)]);
                assert(more.drop_last() =~= seq![]);
                assert(speeches(more) =~= seq![(text, context_id, false)]);
                assert(said.push(text).drop_last() =~= said);
                assert(going_on(said.push(text), context_id) =~= going_on(said, context_id).push(
                    (text, context_id, false),
                ));
                assert(said.len() == 0 ==> joined(said, " "@).len() == 0);
            },
            None => {
                assert(more =~= seq![]);
                assert(prior.actions + more =~= prior.actions);
                assert(speeches(more) =~= seq![]);
            },
        }
        assert(speeches(course.actions) =~= going_on(said_over(tokens), context_id));
    }
}

proof fn lemma_sentences_say_something(tokens: Seq<Seq<char>>)
    ensures
        said_over(tokens).len() > 0 ==> joined(said_over(tokens), " "@).len() > 0,
    decreases tokens.len(),
{
    if tokens.len() > 0 {
        let before = tokens.drop_last();
        lemma_sentences_say_something(before);
        law_sentences_are_clean(held_over(before) + tokens.last());
        let said = said_over(before);
        if let Some(text) = said_on(held_over(before), tokens.last()) {
            assert(said.push(text).drop_last() =~= said);
        }
    }
}

/// A reply that is heard out is remembered as its tokens run together, and spoken as the sentences
/// they make and then what was left of it, which alone is marked as the last. One that is cut off
/// while it streams in is remembered as the sentences spoken so far, with single spaces between.
pub proof fn law_a_whole_reply(
    a: AgentView,
    f: Figures,
    context_id: Seq<char>,
    tokens: Seq<Seq<char>>,
    times: Seq<Moment>,
    ended: Moment,
    closed: Moment,
)
    requires
        a.answer == Some(fresh_answer(context_id)),
        tokens.len() == times.len(),
    ensures
        ({
            let events = Seq::new(
                tokens.len(),
                |i: int| (ReplyEventView::Token(tokens[i]), times[i]),
            );
            let whole = reply_over(
                a,
                f,
                context_id,
                events.push((ReplyEventView::Ended, ended)).push((ReplyEventView::Closed, closed)),
            );
            let text = joined(tokens, seq![]);
            let rest = match sentence_of(held_over(tokens)) {
                Some(s) => s,
                None => seq![],
            };
            let heard = joined(said_over(tokens), " "@);
            &&& whole.agent.history == if text.len() > 0 {
                a.history.push(MessageView { role: "assistant"@, content: text })
            } else {
                a.history
            }
            &&& whole.agent.answer->0.phase == Phase::Done
            &&& speeches(whole.actions) == going_on(said_over(tokens), context_id).push(
                (rest, context_id, true),
            )
            &&& agent_after(
                reply_over(a, f, context_id, events).agent,
                EventView::SpeechStarted,
            ).history == if heard.len() > 0 {
                a.history.push(MessageView { role: "assistant"@, content: heard })
            } else {
                a.history
            }
        }),
{
    law_a_streaming_reply_is_its_tokens(a, f, context_id, tokens, times);
    let events = Seq::new(tokens.len(), |i: int| (ReplyEventView::Token(tokens[i]), times[i]));
    let streamed = reply_over(a, f, context_id, events);
    let to_end = events.push((ReplyEventView::Ended, ended));
    let to_close = to_end.push((ReplyEventView::Closed, closed));
    assert(to_end.drop_last() =~= events);
    assert(to_close.drop_last() =~= to_end);
    let finished = reply_over(a, f, context_id, to_end);
    let whole = reply_over(a, f, context_id, to_close);
    let last = actions_on_reply(
        streamed.agent,
        context_id,
        ReplyEventView::Ended,
        streamed.figures,
        ended,
    );
    let report = actions_on_reply(
        finished.agent,
        context_id,
        ReplyEventView::Closed,
        finished.figures,
        closed,
    );
    lemma_speeches_add(streamed.actions, last);
    lemma_speeches_add(finished.actions, report);
    reveal_with_fuel(speeches, 3);
    assert(last.drop_last() =~= seq![]);
    let rest = or_nothing(sentence_of(held_over(tokens)));
    assert(speeches(last) =~= seq![(rest, context_id, true)]);
    if report.len() == 2 {
        assert(report.drop_last() =~= seq![report[0]]);
    }
    assert(seq![report[0]].drop_last() =~= seq![]);
    assert(speeches(report) =~= seq![]);
    assert(speeches(whole.actions) =~= going_on(said_over(tokens), context_id).push(
        (rest, context_id, true),
    ));
}

/// A history keeps the system prompt and its latest 40 messages, in order and as they are; one
/// that holds no more than that is left alone.
pub proof fn law_a_history_keeps_its_latest(messages: &mut Vec<Message>)
    requires
        call_ensures(trim_history, (messages,), ()),
        old(messages)@.len() > 0,
    ensures
        ({
            let before = old(messages).deep_view();
            let after = final(messages).deep_view();
            &&& before.len() <= 41 ==> after == before
            &&& before.len() > 41 ==> after.len() == 41
            &&& after[0] == before[0]
            &&& forall|k: int|
                1 <= k <= 40 && k < after.len() ==> #[trigger] after[after.len() - k]
                    == before[before.len() - k]
        }),
{
}

/// A conversation starts with the system prompt and nothing else.
pub proof fn law_a_conversation_starts_with_its_prompt(system_prompt: String, agent: Agent)
    requires
        call_ensures(Agent::new, (system_prompt,), agent),
    ensures
        agent@.history == seq![MessageView { role: "system"@, content: system_prompt@ }],
        agent@.turn.len() == 0,
        agent@.answer is None,
        agent@.last_context == 0,
        agent_ok(agent@),
{
}

/// Each item of a stream is reported as it is: a token as a token, the first failure as the break
/// it is, and the end as the end.
pub proof fn law_streams_are_reported_as_they_are(
    item: Option<Result<String, String>>,
    event: ReplyEvent,
)
    requires
        call_ensures(reply_event, (item,), event),
    ensures
        item matches Some(Ok(token)) ==> (event matches ReplyEvent::Token(t) && t@ == token@),
        item matches Some(Err(error)) ==> (event matches ReplyEvent::Broken(e) && e@ == error@),
        item is None ==> event is Ended,
{
}

/// Anything the transcriber reports can be taken in, unless a count is full.
pub proof fn law_what_can_be_taken_in(agent: Agent, event: SttEvent, metrics: TurnMetrics, b: bool)
    requires
        call_ensures(Agent::can_take, (&agent, &event, &metrics), b),
    ensures
        event is SpeechStarted || event is Final ==> b,
        event matches SttEvent::Interim { lag: Some(_), .. } ==> b,
        event is UtteranceEnd && agent@.turn.len() == 0 ==> b,
        metrics@.partials_unknown < u32::MAX && metrics@.partials.len() == 0
            && metrics@.last_final is None && agent@.last_context < u64::MAX ==> b,
{
}

} // verus!
