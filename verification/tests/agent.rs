use sol_li_ni::agent::{reply_event, trim_history, Action, Agent, ReplyEvent, MAX_HISTORY};
use sol_li_ni::audio::Speaker;
use sol_li_ni::llm::Message;
use sol_li_ni::metrics::TurnMetrics;
use sol_li_ni::stt::SttEvent;
use sol_li_ni::time::{Moment, Span};
use sol_li_ni::tts::{Command, Speech};

#[test]
fn history_keeps_the_system_prompt_and_the_latest_messages() {
    let mut messages = vec![Message::system("be brief".to_owned())];
    for i in 0..MAX_HISTORY + 10 {
        messages.push(Message::user(format!("turn {i}")));
    }
    trim_history(&mut messages);

    assert_eq!(messages.len(), MAX_HISTORY + 1);
    assert_eq!(messages[0].role, "system", "the system prompt must survive trimming");
    assert_eq!(messages[1].content, "turn 10", "the oldest turns go first");
    assert_eq!(messages.last().unwrap().content, format!("turn {}", MAX_HISTORY + 9));
}

#[test]
fn a_short_history_is_left_alone() {
    let mut messages =
        vec![Message::system("be brief".to_owned()), Message::user("hi".to_owned())];
    trim_history(&mut messages);
    assert_eq!(messages.len(), 2);
}

fn at(millis: u64) -> Moment {
    Moment { nanos: millis * 1_000_000 }
}

fn interim(text: &str) -> SttEvent {
    SttEvent::Interim { text: text.to_owned(), lag: None }
}

fn segment(text: &str) -> SttEvent {
    SttEvent::Final { text: text.to_owned(), lag: None }
}

/// An agent, its queue and its metrics, driven by hand.
struct Rig {
    agent: Agent,
    speaker: Speaker<u8>,
    metrics: TurnMetrics,
}

impl Rig {
    fn new() -> Rig {
        Rig {
            agent: Agent::new("be brief".to_owned()),
            speaker: Speaker::new(),
            metrics: TurnMetrics::default(),
        }
    }

    fn hear(&mut self, event: SttEvent) -> Vec<Action> {
        assert!(self.agent.can_take(&event, &self.metrics));
        self.agent.on_stt(event, &mut self.speaker, &mut self.metrics, at(1000))
    }

    fn reply(&mut self, context: &str, event: ReplyEvent) -> Vec<Action> {
        self.agent.on_reply(context, event, &mut self.metrics, at(1500))
    }

    /// Has the caller say something, and returns what the model is asked.
    fn ask(&mut self, text: &str) -> (Vec<(String, String)>, String) {
        assert!(self.hear(segment(text)).is_empty());
        started(&self.hear(SttEvent::UtteranceEnd))
    }

    fn play(&mut self, frames: usize) {
        for _ in 0..frames {
            let _ = self.speaker.push(0, &mut self.metrics, at(1600));
        }
    }
}

fn started(actions: &[Action]) -> (Vec<(String, String)>, String) {
    match actions.last() {
        Some(Action::StartReply { messages, context_id }) => (
            messages.iter().map(|m| (m.role.clone(), m.content.clone())).collect(),
            context_id.clone(),
        ),
        other => panic!("no reply was started: {other:?}"),
    }
}

fn token(text: &str) -> ReplyEvent {
    ReplyEvent::Token(text.to_owned())
}

fn spoken(actions: &[Action]) -> Vec<(String, String, bool)> {
    actions
        .iter()
        .filter_map(|a| match a {
            Action::Voice(Command::Speak(Speech { text, context_id, end })) => {
                Some((text.clone(), context_id.clone(), *end))
            }
            _ => None,
        })
        .collect()
}

fn logged(actions: &[Action]) -> Vec<String> {
    actions
        .iter()
        .filter_map(|a| match a {
            Action::Log(line) => Some(line.clone()),
            _ => None,
        })
        .collect()
}

fn warned(actions: &[Action]) -> Vec<String> {
    actions
        .iter()
        .filter_map(|a| match a {
            Action::Warn(line) => Some(line.clone()),
            _ => None,
        })
        .collect()
}

fn cleared(actions: &[Action]) -> Vec<String> {
    actions
        .iter()
        .filter_map(|a| match a {
            Action::Voice(Command::Clear { context_id }) => Some(context_id.clone()),
            _ => None,
        })
        .collect()
}

fn stops(actions: &[Action]) -> usize {
    actions.iter().filter(|a| matches!(a, Action::StopReply)).count()
}

fn pair(role: &str, content: &str) -> (String, String) {
    (role.to_owned(), content.to_owned())
}

#[test]
fn finals_are_joined_into_one_turn() {
    let mut rig = Rig::new();
    assert!(rig.hear(SttEvent::SpeechStarted).is_empty());
    assert!(rig.hear(segment("hello there")).is_empty());
    assert!(rig.hear(segment("how are you")).is_empty());
    let actions = rig.hear(SttEvent::UtteranceEnd);
    assert_eq!(
        logged(&actions),
        ["USER: hello there how are you", "deepgram latency: final unmeasured"]
    );
    let (messages, context) = started(&actions);
    assert_eq!(
        messages,
        [pair("system", "be brief"), pair("user", "hello there how are you")]
    );
    assert_eq!(context, "turn-2");
    // Nothing was said since, so another end of speech is no turn.
    assert!(rig.hear(SttEvent::UtteranceEnd).is_empty());
}

#[test]
fn a_reply_is_spoken_sentence_by_sentence_and_remembered() {
    let mut rig = Rig::new();
    let (_, context) = rig.ask("hi");
    assert!(rig.reply(&context, token("Hello ")).is_empty());
    assert_eq!(
        spoken(&rig.reply(&context, token("there. "))),
        [("Hello there.".to_owned(), context.clone(), false)]
    );
    assert!(rig.reply(&context, token("Bye")).is_empty());
    assert_eq!(
        spoken(&rig.reply(&context, ReplyEvent::Ended)),
        [("Bye".to_owned(), context.clone(), true)]
    );
    assert_eq!(
        logged(&rig.reply(&context, ReplyEvent::Closed)),
        [
            "AGENT: Hello there. Bye",
            "llm latency: first token 500 ms | full reply 500 ms"
        ]
    );
    let (messages, next) = rig.ask("again");
    assert_eq!(messages[2], pair("assistant", "Hello there. Bye"));
    assert_eq!(messages[3], pair("user", "again"));
    assert_eq!(next, "turn-4");
}

#[test]
fn the_last_message_closes_the_context_even_with_nothing_to_say() {
    let mut rig = Rig::new();
    let (_, context) = rig.ask("hi");
    assert_eq!(spoken(&rig.reply(&context, token("Done. "))).len(), 1);
    assert_eq!(
        spoken(&rig.reply(&context, ReplyEvent::Ended)),
        [(String::new(), context.clone(), true)]
    );
    // It is closed once: a second end changes nothing.
    assert!(rig.reply(&context, ReplyEvent::Ended).is_empty());
}

#[test]
fn words_over_a_streaming_reply_stop_it_and_only_what_was_heard_is_kept() {
    let mut rig = Rig::new();
    let (_, context) = rig.ask("hi");
    rig.reply(&context, token("One. "));
    rig.reply(&context, token("Two is "));
    rig.play(10);
    let actions = rig.hear(interim("wait"));
    assert_eq!(stops(&actions), 1);
    assert_eq!(cleared(&actions), [context.clone()]);
    assert_eq!(
        logged(&actions),
        ["… wait", "barge-in: dropped 200 ms of queued speech"]
    );
    assert!(rig.speaker.pop().is_none(), "interrupted audio must not play");

    // The stopped reply has no say any more.
    assert!(rig.reply(&context, token("late. ")).is_empty());
    assert!(rig.reply(&context, ReplyEvent::Ended).is_empty());

    let (messages, next) = rig.ask("actually stop");
    assert_eq!(
        messages,
        [
            pair("system", "be brief"),
            pair("user", "hi"),
            pair("assistant", "One."),
            pair("user", "actually stop"),
        ]
    );
    assert_ne!(next, context);
    assert!(rig.reply(&context, token("later. ")).is_empty());
}

#[test]
fn words_over_a_finished_reply_cut_off_its_audio() {
    let mut rig = Rig::new();
    let (_, context) = rig.ask("hi");
    rig.reply(&context, token("One."));
    rig.reply(&context, ReplyEvent::Ended);
    rig.reply(&context, ReplyEvent::Closed);
    rig.play(2);
    let actions = rig.hear(interim("hm"));
    assert_eq!(stops(&actions), 0);
    assert_eq!(cleared(&actions), [context]);
    let (messages, _) = rig.ask("next");
    // Recorded once, by the reply itself.
    assert_eq!(messages.len(), 4);
}

#[test]
fn words_after_everything_was_played_interrupt_nothing() {
    let mut rig = Rig::new();
    let (_, context) = rig.ask("hi");
    rig.reply(&context, token("One."));
    rig.reply(&context, ReplyEvent::Ended);
    rig.reply(&context, ReplyEvent::Closed);
    let actions = rig.hear(interim("hm"));
    assert_eq!(logged(&actions), ["… hm"]);
    assert_eq!(actions.len(), 1);
}

#[test]
fn a_question_the_model_could_not_be_asked_leaves_no_trace() {
    let mut rig = Rig::new();
    let (_, first) = rig.ask("lost");
    assert_eq!(
        warned(&rig.reply(&first, ReplyEvent::Refused("no key".to_owned()))),
        ["llm: no key"]
    );
    let (messages, second) = rig.ask("found");
    assert_eq!(messages, [pair("system", "be brief"), pair("user", "found")]);
    // The history did not grow, and still a new turn gets a new id.
    assert_eq!(first, "turn-2");
    assert_eq!(second, "turn-3");
}

#[test]
fn a_broken_stream_still_closes_its_context() {
    let mut rig = Rig::new();
    let (_, context) = rig.ask("hi");
    rig.reply(&context, token("Half a"));
    let actions = rig.reply(&context, ReplyEvent::Broken("reset".to_owned()));
    assert_eq!(warned(&actions), ["llm: reset"]);
    assert!(logged(&actions).is_empty());
    assert_eq!(spoken(&actions), [("Half a".to_owned(), context.clone(), true)]);
    rig.reply(&context, ReplyEvent::Closed);
    let (messages, _) = rig.ask("go on");
    assert_eq!(messages[2], pair("assistant", "Half a"));
}

#[test]
fn a_reply_without_words_is_not_remembered() {
    let mut rig = Rig::new();
    let (_, context) = rig.ask("hi");
    rig.reply(&context, ReplyEvent::Ended);
    rig.reply(&context, ReplyEvent::Closed);
    let (messages, _) = rig.ask("hello?");
    assert_eq!(
        messages,
        [pair("system", "be brief"), pair("user", "hi"), pair("user", "hello?")]
    );
}

#[test]
fn long_calls_keep_the_prompt_and_never_reuse_an_id() {
    let mut rig = Rig::new();
    let mut seen: Vec<String> = Vec::new();
    for i in 0..60 {
        let (messages, context) = rig.ask(&format!("question {i}"));
        assert!(messages.len() <= MAX_HISTORY + 1);
        assert_eq!(messages[0], pair("system", "be brief"));
        assert_eq!(messages.last().unwrap().1, format!("question {i}"));
        assert!(!seen.contains(&context), "{context} was used before");
        rig.reply(&context, token("Answer."));
        rig.reply(&context, ReplyEvent::Ended);
        rig.reply(&context, ReplyEvent::Closed);
        seen.push(context);
    }
    assert_eq!(seen[0], "turn-2");
    assert_eq!(seen[1], "turn-4");
}

#[test]
fn measured_lag_reaches_the_report() {
    let mut rig = Rig::new();
    let lag = Some(Span::from_millis(120));
    rig.hear(SttEvent::Interim { text: "hel".to_owned(), lag });
    rig.hear(SttEvent::Final { text: "hello".to_owned(), lag });
    let actions = rig.hear(SttEvent::UtteranceEnd);
    assert_eq!(
        logged(&actions)[1],
        "deepgram latency: partial avg 120 ms (max 120 ms, n=1) | final 120 ms | endpoint 120 ms"
    );
}

#[test]
fn the_voice_gets_what_the_model_wrote() {
    let mut rig = Rig::new();
    let (_, context) = rig.ask("tell me");
    let tokens = ["It ", "is 3.", "5 degrees. ", " Bring", " a coat! ", "\n", "Bye"];
    let mut given = String::new();
    let mut closings = 0;
    for t in tokens {
        for (text, _, end) in spoken(&rig.reply(&context, token(t))) {
            given.push_str(&text);
            closings += end as usize;
        }
    }
    assert_eq!(closings, 0);
    // However often the end is reported, the context is closed once.
    for _ in 0..3 {
        for (text, _, end) in spoken(&rig.reply(&context, ReplyEvent::Ended)) {
            given.push_str(&text);
            closings += end as usize;
        }
    }
    assert_eq!(closings, 1);
    let solid = |s: &str| -> String { s.chars().filter(|c| !c.is_whitespace()).collect() };
    assert_eq!(solid(&given), solid(&tokens.concat()));
}

#[test]
fn a_new_turn_ends_the_old() {
    let mut rig = Rig::new();
    let (_, first) = rig.ask("one");
    rig.reply(&first, token("Well. "));
    rig.play(3);
    rig.hear(segment("two"));
    let actions = rig.hear(SttEvent::UtteranceEnd);
    assert!(matches!(actions[0], Action::StopReply));
    assert_eq!(cleared(&actions), [first.clone()]);
    let (messages, second) = started(&actions);
    assert_ne!(first, second);
    assert_eq!(messages.last().unwrap(), &pair("user", "two"));
    assert_eq!(messages[2], pair("assistant", "Well."));
    assert!(rig.speaker.pop().is_none());
}

#[test]
fn a_stream_is_reported_item_by_item() {
    assert!(matches!(reply_event(Some(Ok("a".to_owned()))), ReplyEvent::Token(t) if t == "a"));
    assert!(matches!(reply_event(Some(Err("e".to_owned()))), ReplyEvent::Broken(e) if e == "e"));
    assert!(matches!(reply_event(None), ReplyEvent::Ended));
}

#[test]
fn the_first_sound_over_a_streaming_reply_stops_it() {
    let mut rig = Rig::new();
    let (_, context) = rig.ask("hi");
    rig.reply(&context, token("One. "));
    rig.play(5);
    let actions = rig.hear(SttEvent::SpeechStarted);
    assert!(matches!(actions[0], Action::StopReply));
    assert_eq!(cleared(&actions), [context.clone()]);
    assert_eq!(logged(&actions), ["barge-in: dropped 100 ms of queued speech"]);
    assert!(rig.speaker.pop().is_none());
    // The words that follow find nothing left to stop.
    assert_eq!(rig.hear(interim("wait")).len(), 1);
    let (messages, _) = rig.ask("wait");
    assert_eq!(messages[2], pair("assistant", "One."));
}

#[test]
fn the_first_sound_over_finished_speech_cuts_it_off() {
    let mut rig = Rig::new();
    let (_, context) = rig.ask("hi");
    rig.reply(&context, token("One."));
    rig.reply(&context, ReplyEvent::Ended);
    rig.reply(&context, ReplyEvent::Closed);
    rig.play(1);
    let actions = rig.hear(SttEvent::SpeechStarted);
    assert_eq!(stops(&actions), 0);
    assert_eq!(cleared(&actions), [context]);
    // With nothing in progress it asks for nothing.
    assert!(rig.hear(SttEvent::SpeechStarted).is_empty());
}
