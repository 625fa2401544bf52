//! One call: the settings it is made with, what it is set up with, how it lives and ends, and
//! the port its media goes through.

use vstd::prelude::*;
use vstd::string::*;

use crate::config::{Config, ConfigView, PortRange};
use crate::stt::Endpointing;
use crate::text::{
    all_white, decimal, decimal_text, is_white_space, lemma_trimmed_bounds, starts_with, trim,
    trimmed,
};

verus! {

/// The payload type that Opus is offered under.
pub const OPUS_PAYLOAD_TYPE: u8 = 111;

/// Opus is always negotiated with this many channels, whatever is sent.
pub const OPUS_CHANNELS: u16 = 2;

/// How Opus is asked for: packets of 10 ms and more, with error correction inside.
pub const OPUS_FORMAT: &'static str = "minptime=10;useinbandfec=1";

/// How long a caller is given to connect.
pub const CONNECT_SECS: u64 = 30;

/// How long the network is given to name its addresses.
pub const GATHER_SECS: u64 = 5;

/// How long a disconnected peer is given to come back before the call is torn down.
/// WebRTC recovers from brief network blips, but a closed tab never returns.
pub const DISCONNECT_GRACE_SECS: u64 = 5;

// ---- settings

/// Per-call settings chosen on the web page and sent along with the offer.
#[derive(Debug)]
pub struct CallSettings {
    pub endpointing: u32,
    pub utterance_end_ms: u32,
    /// Empty means the server default from `OPENAI_MODEL`.
    pub model: String,
    /// OpenAI-compatible API root. Empty means the server default from `OPENAI_BASE_URL`.
    pub base_url: String,
    /// Murf voice id. Empty means the server default from `MURF_VOICE`.
    pub voice: String,
    /// What the caller speaks. Empty means the server default from `STT_LANGUAGE`.
    pub language: String,
    /// How the agent should behave. Empty means the server default from `SYSTEM_PROMPT`.
    pub system_prompt: String,
}

/// Settings, with their texts as characters.
pub struct SettingsView {
    pub endpointing: u32,
    pub utterance_end_ms: u32,
    pub model: Seq<char>,
    pub base_url: Seq<char>,
    pub voice: Seq<char>,
    pub language: Seq<char>,
    pub system_prompt: Seq<char>,
}

impl View for CallSettings {
    type V = SettingsView;

    open spec fn view(&self) -> SettingsView {
        SettingsView {
            endpointing: self.endpointing,
            utterance_end_ms: self.utterance_end_ms,
            model: self.model@,
            base_url: self.base_url@,
            voice: self.voice@,
            language: self.language@,
            system_prompt: self.system_prompt@,
        }
    }
}

/// What is wrong with the settings, if anything. The base URL is the one thing a caller can get
/// wrong: the server would send its API key to whatever URL is named.
pub open spec fn settings_issue(s: SettingsView, allow_base_url_override: bool) -> Option<
    Seq<char>,
> {
    let base_url = trimmed(s.base_url);
    if base_url.len() == 0 {
        None
    } else if !allow_base_url_override {
        Some("this server does not allow overriding the base URL"@)
    } else if !"http://"@.is_prefix_of(base_url) && !"https://"@.is_prefix_of(base_url) {
        Some("base URL must start with http:// or https://"@)
    } else {
        None
    }
}

impl CallSettings {
    /// Rejects settings the caller got wrong, so they come back as 400 rather than 500.
    pub fn validate(&self, allow_base_url_override: bool) -> (r: Result<(), String>)
        ensures
            match r {
                Ok(_) => settings_issue(self@, allow_base_url_override) is None,
                Err(e) => settings_issue(self@, allow_base_url_override) == Some(e@),
            },
    {
        let base_url = trim(self.base_url.as_str());
        if base_url.is_empty() {
            return Ok(());
        }
        // Off by default: the server would send its API key to whatever URL is named.
        if !allow_base_url_override {
            return Err("this server does not allow overriding the base URL".to_owned());
        }
        if !starts_with(base_url, "http://") && !starts_with(base_url, "https://") {
            return Err("base URL must start with http:// or https://".to_owned());
        }
        Ok(())
    }
}

impl Default for CallSettings {
    fn default() -> (s: Self)
        ensures
            s@ == (SettingsView {
                endpointing: 300,
                utterance_end_ms: 1000,
                model: seq![],
                base_url: seq![],
                voice: seq![],
                language: seq![],
                system_prompt: seq![],
            }),
    {
        let turn_taking = Endpointing::default();
        CallSettings {
            endpointing: turn_taking.endpointing,
            utterance_end_ms: turn_taking.utterance_end_ms,
            model: String::new(),
            base_url: String::new(),
            voice: String::new(),
            language: String::new(),
            system_prompt: String::new(),
        }
    }
}

// ---- what a call is set up with

/// What a call is set up with.
#[derive(Debug)]
pub struct CallPlan {
    pub endpointing: Endpointing,
    pub model: String,
    pub base_url: String,
    pub voice: String,
    pub language: String,
    pub system_prompt: String,
    /// Whether the caller chose where the model is reached. Worth saying out loud, since the
    /// API key goes wherever this points.
    pub base_url_overridden: bool,
}

/// A plan, with its texts as characters.
pub struct PlanView {
    pub endpointing: Endpointing,
    pub model: Seq<char>,
    pub base_url: Seq<char>,
    pub voice: Seq<char>,
    pub language: Seq<char>,
    pub system_prompt: Seq<char>,
    pub base_url_overridden: bool,
}

impl View for CallPlan {
    type V = PlanView;

    open spec fn view(&self) -> PlanView {
        PlanView {
            endpointing: self.endpointing,
            model: self.model@,
            base_url: self.base_url@,
            voice: self.voice@,
            language: self.language@,
            system_prompt: self.system_prompt@,
            base_url_overridden: self.base_url_overridden,
        }
    }
}

/// What was chosen, without the white space around it, or the default where nothing was.
pub open spec fn chosen_or(setting: Seq<char>, default: Seq<char>) -> Seq<char> {
    if trimmed(setting).len() == 0 {
        default
    } else {
        trimmed(setting)
    }
}

fn choose_text(setting: &str, default: &str) -> (r: String)
    ensures
        r@ == chosen_or(setting@, default@),
{
    let chosen = trim(setting);
    if chosen.is_empty() {
        default.to_owned()
    } else {
        chosen.to_owned()
    }
}

/// What a call with these settings is set up with.
pub open spec fn plan_of(c: ConfigView, s: SettingsView) -> PlanView {
    PlanView {
        endpointing: Endpointing {
            endpointing: s.endpointing,
            utterance_end_ms: s.utterance_end_ms,
        },
        model: chosen_or(s.model, c.openai_model),
        base_url: chosen_or(s.base_url, c.openai_base_url),
        voice: chosen_or(s.voice, c.murf_voice),
        language: chosen_or(s.language, c.stt_language),
        system_prompt: chosen_or(s.system_prompt, c.system_prompt),
        base_url_overridden: trimmed(s.base_url).len() > 0,
    }
}

/// What a call with these settings is set up with. Anything left blank falls back to what the
/// server is configured with.
pub fn plan_call(config: &Config, settings: &CallSettings) -> (plan: CallPlan)
    ensures
        plan@ == plan_of(config@, settings@),
{
    CallPlan {
        endpointing: Endpointing {
            endpointing: settings.endpointing,
            utterance_end_ms: settings.utterance_end_ms,
        },
        model: choose_text(settings.model.as_str(), config.openai_model.as_str()),
        base_url: choose_text(settings.base_url.as_str(), config.openai_base_url.as_str()),
        voice: choose_text(settings.voice.as_str(), config.murf_voice.as_str()),
        language: choose_text(settings.language.as_str(), config.stt_language.as_str()),
        system_prompt: choose_text(
            settings.system_prompt.as_str(),
            config.system_prompt.as_str(),
        ),
        base_url_overridden: !trim(settings.base_url.as_str()).is_empty(),
    }
}

/// Anything left blank falls back to what the server is configured with.
pub proof fn law_blank_settings_fall_back(c: ConfigView, s: SettingsView)
    ensures
        trimmed(s.model).len() == 0 ==> plan_of(c, s).model == c.openai_model,
        trimmed(s.base_url).len() == 0 ==> plan_of(c, s).base_url == c.openai_base_url,
        trimmed(s.voice).len() == 0 ==> plan_of(c, s).voice == c.murf_voice,
        trimmed(s.language).len() == 0 ==> plan_of(c, s).language == c.stt_language,
        trimmed(s.system_prompt).len() == 0 ==> plan_of(c, s).system_prompt == c.system_prompt,
{
}

/// Of settings that pass validation, the API key only ever goes to the endpoint the server is
/// configured with, unless overriding is allowed; and then only over HTTP or HTTPS.
pub proof fn law_the_key_goes_where_the_server_allows(c: ConfigView, s: SettingsView)
    requires
        settings_issue(s, c.allow_base_url_override) is None,
    ensures
        plan_of(c, s).base_url != c.openai_base_url ==> c.allow_base_url_override,
        plan_of(c, s).base_url_overridden ==> c.allow_base_url_override && ("http://"@.is_prefix_of(
            plan_of(c, s).base_url,
        ) || "https://"@.is_prefix_of(plan_of(c, s).base_url)),
{
}

// ---- the peer

/// The state of the connection to the browser.
#[derive(Debug, Clone, Copy, PartialEq, Eq, Structural)]
pub enum PeerState {
    New,
    Connecting,
    Connected,
    Disconnected,
    Failed,
    Closed,
}

/// What a call is told of the connection.
#[derive(Debug, Clone, Copy, PartialEq, Eq, Structural)]
pub enum Signal {
    Connected,
    Disconnected,
    Closed,
}

/// What a call is told when the connection changes. A disconnected peer may recover, so it
/// starts a grace period rather than ending the call.
pub open spec fn signal_of(state: PeerState) -> Option<Signal> {
    match state {
        PeerState::Connected => Some(Signal::Connected),
        PeerState::Disconnected => Some(Signal::Disconnected),
        PeerState::Failed | PeerState::Closed => Some(Signal::Closed),
        PeerState::New | PeerState::Connecting => None,
    }
}

/// What a call is told when the connection changes.
pub fn signal(state: PeerState) -> (r: Option<Signal>)
    ensures
        r == signal_of(state),
{
    match state {
        PeerState::Connected => Some(Signal::Connected),
        PeerState::Disconnected => Some(Signal::Disconnected),
        PeerState::Failed | PeerState::Closed => Some(Signal::Closed),
        PeerState::New | PeerState::Connecting => None,
    }
}

/// What the agent's audio is sent as: the first codec that was negotiated, on the first stream
/// of its track.
pub fn outgoing_stream(payload_types: &Vec<u8>, ssrcs: &Vec<u32>) -> (r: Result<
    (u8, u32),
    String,
>)
    ensures
        match r {
            Ok((payload_type, ssrc)) => payload_types@.len() > 0 && ssrcs@.len() > 0
                && payload_type == payload_types@[0] && ssrc == ssrcs@[0],
            Err(e) => if payload_types@.len() == 0 {
                e@ == "sender has no negotiated codec"@
            } else {
                ssrcs@.len() == 0 && e@ == "track has no ssrc"@
            },
        },
{
    if payload_types.len() == 0 {
        Err("sender has no negotiated codec".to_owned())
    } else if ssrcs.len() == 0 {
        Err("track has no ssrc".to_owned())
    } else {
        Ok((payload_types[0], ssrcs[0]))
    }
}

// ---- the life of a call

/// Where a call stands.
#[derive(Debug, Clone, Copy, PartialEq, Eq, Structural)]
pub enum CallPhase {
    /// Negotiated, and waiting for the browser to connect.
    Connecting,
    /// The agent is talking with the caller.
    Live,
    /// The caller's connection dropped, and may come back.
    Recovering,
    /// Over.
    Ended,
}

/// What can happen to a call.
#[derive(Debug, Clone, Copy, PartialEq, Eq, Structural)]
pub enum CallEvent {
    Connected,
    Disconnected,
    Closed,
    /// The browser took too long to connect.
    ConnectTimeout,
    /// The call has lasted as long as it may.
    TimeLimit,
    /// The peer was gone for the whole grace period.
    GraceOver,
    /// No more audio can be sent, cleanly or because of an error.
    AudioStopped { clean: bool },
}

/// What is to be done about it.
#[derive(Debug, Clone, Copy, PartialEq, Eq, Structural)]
pub enum CallAction {
    /// Keep waiting.
    Wait,
    /// Start the agent, the audio and the clock that limits the call.
    Start,
    /// Stop the services that were warming up, and close the connection.
    Abandon,
    /// The same, and report that the connection timed out.
    AbandonTimedOut,
    /// Stop everything, and close the connection.
    HangUp,
    /// The same, and report the error that stopped the audio.
    HangUpFailed,
}

/// Whether a call in this phase waits for such an event. One that it does not wait for stays
/// where it is until a phase that does.
pub open spec fn awaits(phase: CallPhase, event: CallEvent) -> bool {
    match phase {
        CallPhase::Connecting => event is Connected || event is Closed || event is ConnectTimeout,
        CallPhase::Live => event is AudioStopped || event is Closed || event is TimeLimit
            || event is Disconnected,
        // Wait it out: a blip reconnects, a closed tab does not.
        CallPhase::Recovering => event is Connected || event is Closed || event is AudioStopped
            || event is GraceOver,
        CallPhase::Ended => false,
    }
}

/// The phase that an event brings a call to.
pub open spec fn phase_after(phase: CallPhase, event: CallEvent) -> CallPhase {
    if !awaits(phase, event) {
        phase
    } else if event is Connected {
        CallPhase::Live
    } else if event is Disconnected {
        CallPhase::Recovering
    } else {
        CallPhase::Ended
    }
}

/// What an event asks for.
pub open spec fn action_on(phase: CallPhase, event: CallEvent) -> CallAction {
    if !awaits(phase, event) {
        CallAction::Wait
    } else if phase is Connecting {
        match event {
            CallEvent::Connected => CallAction::Start,
            CallEvent::ConnectTimeout => CallAction::AbandonTimedOut,
            _ => CallAction::Abandon,
        }
    } else {
        match event {
            CallEvent::Connected | CallEvent::Disconnected => CallAction::Wait,
            CallEvent::AudioStopped { clean: false } => CallAction::HangUpFailed,
            _ => CallAction::HangUp,
        }
    }
}

/// A call, from its answer to its end.
#[derive(Debug)]
pub struct CallState {
    pub phase: CallPhase,
}

impl CallState {
    /// A call that was just negotiated.
    pub fn new() -> (c: Self)
        ensures
            c.phase is Connecting,
    {
        CallState { phase: CallPhase::Connecting }
    }

    /// Whether an event is waited for now.
    pub fn awaits(&self, event: CallEvent) -> (b: bool)
        ensures
            b == awaits(self.phase, event),
    {
        match self.phase {
            CallPhase::Connecting => match event {
                CallEvent::Connected | CallEvent::Closed | CallEvent::ConnectTimeout => true,
                _ => false,
            },
            CallPhase::Live => match event {
                CallEvent::AudioStopped { .. } | CallEvent::Closed | CallEvent::TimeLimit
                | CallEvent::Disconnected => true,
                _ => false,
            },
            CallPhase::Recovering => match event {
                CallEvent::Connected | CallEvent::Closed | CallEvent::AudioStopped { .. }
                | CallEvent::GraceOver => true,
                _ => false,
            },
            CallPhase::Ended => false,
        }
    }

    /// Takes in an event.
    pub fn on_event(&mut self, event: CallEvent) -> (action: CallAction)
        ensures
            final(self).phase == phase_after(old(self).phase, event),
            action == action_on(old(self).phase, event),
    {
        if !self.awaits(event) {
            return CallAction::Wait;
        }
        let connecting = self.phase == CallPhase::Connecting;
        match event {
            CallEvent::Connected => {
                self.phase = CallPhase::Live;
                if connecting {
                    CallAction::Start
                } else {
                    CallAction::Wait
                }
            },
            CallEvent::Disconnected => {
                self.phase = CallPhase::Recovering;
                CallAction::Wait
            },
            CallEvent::ConnectTimeout => {
                self.phase = CallPhase::Ended;
                CallAction::AbandonTimedOut
            },
            CallEvent::AudioStopped { clean } => {
                self.phase = CallPhase::Ended;
                if clean {
                    CallAction::HangUp
                } else {
                    CallAction::HangUpFailed
                }
            },
            CallEvent::Closed | CallEvent::TimeLimit | CallEvent::GraceOver => {
                self.phase = CallPhase::Ended;
                if connecting {
                    CallAction::Abandon
                } else {
                    CallAction::HangUp
                }
            },
        }
    }
}

/// The phase that a run of events brings a new call to.
pub open spec fn phase_over(events: Seq<CallEvent>) -> CallPhase
    decreases events.len(),
{
    if events.len() == 0 {
        CallPhase::Connecting
    } else {
        phase_after(phase_over(events.drop_last()), events.last())
    }
}

/// How many of the events of a call ask for the agent to start.
pub open spec fn starts_over(events: Seq<CallEvent>) -> nat
    decreases events.len(),
{
    if events.len() == 0 {
        0
    } else {
        let before = events.drop_last();
        starts_over(before) + if action_on(phase_over(before), events.last()) is Start {
            1nat
        } else {
            0nat
        }
    }
}

/// How many of the events of a call ask for it to be closed down.
pub open spec fn ends_over(events: Seq<CallEvent>) -> nat
    decreases events.len(),
{
    if events.len() == 0 {
        0
    } else {
        let before = events.drop_last();
        let action = action_on(phase_over(before), events.last());
        ends_over(before) + if action is Abandon || action is AbandonTimedOut || action is HangUp
            || action is HangUpFailed {
            1nat
        } else {
            0nat
        }
    }
}

/// Whatever happens to a call, its agent is started at most once, and has been by the time the
/// call is live; and it is closed down exactly when it ends, once.
pub proof fn law_calls_start_once_and_end_once(events: Seq<CallEvent>)
    ensures
        starts_over(events) <= 1,
        phase_over(events) is Connecting ==> starts_over(events) == 0,
        phase_over(events) is Live || phase_over(events) is Recovering ==> starts_over(events)
            == 1,
        ends_over(events) == if phase_over(events) is Ended {
            1nat
        } else {
            0nat
        },
    decreases events.len(),
{
    if events.len() > 0 {
        law_calls_start_once_and_end_once(events.drop_last());
    }
}

/// A dropped connection does not end a live call by itself: the call goes on as before if the
/// peer comes back, and ends if it stays away.
pub proof fn law_a_blip_is_survived(events: Seq<CallEvent>)
    requires
        phase_over(events) is Live,
    ensures
        ({
            let dropped = events.push(CallEvent::Disconnected);
            let back = dropped.push(CallEvent::Connected);
            let gone = dropped.push(CallEvent::GraceOver);
            &&& !(phase_over(dropped) is Ended)
            &&& phase_over(back) is Live
            &&& starts_over(back) == starts_over(events)
            &&& phase_over(gone) is Ended
        }),
{
    let dropped = events.push(CallEvent::Disconnected);
    assert(dropped.drop_last() =~= events);
    assert(phase_over(dropped) is Recovering);
    assert(starts_over(dropped) == starts_over(events));
    assert(dropped.push(CallEvent::Connected).drop_last() =~= dropped);
    assert(dropped.push(CallEvent::GraceOver).drop_last() =~= dropped);
}

/// A live call ends when its time is up, and a call that is over stays over.
pub proof fn law_calls_come_to_an_end(events: Seq<CallEvent>, more: Seq<CallEvent>)
    ensures
        phase_over(events) is Live ==> phase_over(events.push(CallEvent::TimeLimit)) is Ended,
        phase_over(events) is Ended ==> phase_over(events + more) is Ended,
    decreases more.len(),
{
    assert(events.push(CallEvent::TimeLimit).drop_last() =~= events);
    if more.len() == 0 {
        assert(events + more =~= events);
    } else {
        law_calls_come_to_an_end(events, more.drop_last());
        assert((events + more).drop_last() =~= events + more.drop_last());
    }
}

// ---- the media port

/// The port to try at a place in the search: round-robin through the range, from `start` on.
pub open spec fn port_at(range: PortRange, start: nat, offset: nat) -> nat {
    range.min as nat + (start + offset) % range.count()
}

/// A search for a free port: each port of the range is tried once, from where the last call left
/// off, so recently freed ports rest a moment.
#[derive(Debug)]
pub struct PortSearch {
    range: PortRange,
    start: usize,
    tried: usize,
}

/// How far a search has come.
pub struct SearchView {
    pub range: PortRange,
    pub start: nat,
    pub tried: nat,
}

impl View for PortSearch {
    type V = SearchView;

    closed spec fn view(&self) -> SearchView {
        SearchView { range: self.range, start: self.start as nat, tried: self.tried as nat }
    }
}

/// A search in a real range, that has not gone past its end.
pub open spec fn search_ok(s: SearchView) -> bool {
    &&& s.range.wf()
    &&& s.tried <= s.range.count()
}

impl PortSearch {
    /// A search that starts at the `start`th port, counted round and round.
    pub fn new(range: PortRange, start: usize) -> (s: Self)
        requires
            range.wf(),
        ensures
            search_ok(s@),
            s@ == (SearchView { range, start: start as nat, tried: 0 }),
    {
        PortSearch { range, start, tried: 0 }
    }

    /// The next port to try, until all have been.
    pub fn next(&mut self) -> (r: Option<u16>)
        requires
            search_ok(old(self)@),
        ensures
            search_ok(final(self)@),
            match r {
                Some(port) => {
                    &&& old(self)@.tried < old(self)@.range.count()
                    &&& port == port_at(old(self)@.range, old(self)@.start, old(self)@.tried)
                    &&& final(self)@ == (SearchView {
                        tried: old(self)@.tried + 1,
                        ..old(self)@
                    })
                },
                None => old(self)@.tried == old(self)@.range.count() && final(self)@
                    == old(self)@,
            },
    {
        let count = self.range.len();
        if self.tried == count {
            return None;
        }
        let step: usize = (self.start % count + self.tried) % count;
        proof {
            let n = count as int;
            let start = self.start as int;
            let tried = self.tried as int;
            vstd::arithmetic::div_mod::lemma_add_mod_noop(start, tried, n);
            vstd::arithmetic::div_mod::lemma_small_mod(tried as nat, n as nat);
        }
        let port: u16 = (self.range.min as usize + step) as u16;
        self.tried = self.tried + 1;
        Some(port)
    }

    /// What to report when every port was taken.
    pub fn failure(&self) -> (e: String)
        ensures
            e@ == "no free UDP port in "@ + decimal_text(self@.range.min as nat) + "..="@
                + decimal_text(self@.range.max as nat),
    {
        let mut e = "no free UDP port in ".to_owned();
        e.append(decimal(self.range.min as u128).as_str());
        e.append("..=");
        e.append(decimal(self.range.max as u128).as_str());
        e
    }
}

/// Calls take turns: one that starts its search a step further tries the same ports in the same
/// order, but leaves the first for last.
pub proof fn law_the_next_call_starts_one_further(range: PortRange, start: nat, offset: nat)
    requires
        range.wf(),
    ensures
        port_at(range, start + 1, offset) == port_at(range, start, offset + 1),
        port_at(range, start, range.count()) == port_at(range, start, 0),
{
    let n = range.count() as int;
    vstd::arithmetic::div_mod::lemma_mod_add_multiples_vanish(start as int, n);
}

/// A search tries only ports of the range, none of them twice, and all of them before it gives
/// up.
pub proof fn law_every_port_is_tried_once(range: PortRange, start: nat, port: nat)
    requires
        range.wf(),
    ensures
        forall|i: nat|
            i < range.count() ==> range.min <= #[trigger] port_at(range, start, i) <= range.max,
        forall|i: nat, j: nat|
            i < j < range.count() ==> #[trigger] port_at(range, start, i) != #[trigger] port_at(
                range,
                start,
                j,
            ),
        range.min <= port <= range.max ==> exists|i: nat|
            i < range.count() && #[trigger] port_at(range, start, i) == port,
{
    let n = range.count() as int;
    assert forall|i: nat, j: nat| i < j < range.count() implies #[trigger] port_at(range, start, i)
        != #[trigger] port_at(range, start, j) by {
        let x = (start + i) as int;
        let y = (start + j) as int;
        vstd::arithmetic::div_mod::lemma_fundamental_div_mod(x, n);
        vstd::arithmetic::div_mod::lemma_fundamental_div_mod(y, n);
        if x % n == y % n {
            let q = y / n - x / n;
            assert(y - x == n * q) by (nonlinear_arith)
                requires
                    x == n * (x / n) + x % n,
                    y == n * (y / n) + y % n,
                    x % n == y % n,
                    q == y / n - x / n,
            ;
            assert(false) by (nonlinear_arith)
                requires
                    y - x == n * q,
                    0 < y - x < n,
            ;
        }
    }
    if range.min <= port <= range.max {
        let want: int = port - range.min;
        let from: int = start as int % n;
        let i: int = if want >= from {
            want - from
        } else {
            want - from + n
        };
        assert(0 <= i < n);
        vstd::arithmetic::div_mod::lemma_add_mod_noop(start as int, i, n);
        vstd::arithmetic::div_mod::lemma_small_mod(i as nat, n as nat);
        assert((from + i) % n == want) by {
            if want >= from {
                vstd::arithmetic::div_mod::lemma_small_mod(want as nat, n as nat);
            } else {
                vstd::arithmetic::div_mod::lemma_mod_add_multiples_vanish(want, n);
                vstd::arithmetic::div_mod::lemma_small_mod(want as nat, n as nat);
            }
        }
        assert(port_at(range, start, i as nat) == port);
    }
}

// ---- what holds of every call

/// Settings are turned down only for a base URL that is given: where the server does not allow
/// one, and where it is not an HTTP or HTTPS one, save for the white space around it.
pub proof fn law_only_a_bad_base_url_is_turned_down(
    settings: CallSettings,
    allow: bool,
    r: Result<(), String>,
)
    requires
        call_ensures(CallSettings::validate, (&settings, allow), r),
    ensures
        ({
            let url = settings.base_url@;
            let web = exists|a: int|
                0 <= a <= url.len() && all_white(url.take(a)) && ("http://"@.is_prefix_of(
                    #[trigger] url.skip(a),
                ) || "https://"@.is_prefix_of(url.skip(a)));
            &&& all_white(url) ==> r is Ok
            &&& !all_white(url) && !allow ==> r is Err && r->Err_0@
                == "this server does not allow overriding the base URL"@
            &&& !all_white(url) && allow ==> (r is Ok <==> web)
            &&& !all_white(url) && allow && !web ==> r->Err_0@
                == "base URL must start with http:// or https://"@
        }),
{
    let url = settings.base_url@;
    let (a, b) = lemma_trimmed_bounds(url);
    reveal_strlit("http://");
    reveal_strlit("https://");
    if !all_white(url) {
        let chosen = url.subrange(a, b);
        lemma_prefix_of_trimmed(url, a, b, "http://"@);
        lemma_prefix_of_trimmed(url, a, b, "https://"@);
        assert forall|c: int|
            0 <= c <= url.len() && all_white(url.take(c)) && ("http://"@.is_prefix_of(
                #[trigger] url.skip(c),
            ) || "https://"@.is_prefix_of(url.skip(c))) implies c == a by {
            let rest = url.skip(c);
            assert(rest.len() > 0);
            assert(rest[0] == 'h') by {
                if "http://"@.is_prefix_of(rest) {
                    assert(rest.take(7)[0] == 'h');
                } else {
                    assert(rest.take(8)[0] == 'h');
                }
            }
            assert(url[c] == 'h');
            if c > a {
                assert(url.take(c)[a] == url[a]);
            } else if c < a {
                assert(url.take(a)[c] == url[c]);
            }
        }
        if "http://"@.is_prefix_of(chosen) || "https://"@.is_prefix_of(chosen) {
            assert("http://"@.is_prefix_of(url.skip(a)) || "https://"@.is_prefix_of(url.skip(a)));
        }
    }
}

/// A prefix that ends in something solid is one of a text exactly where it is one of the text
/// without the white space after it.
proof fn lemma_prefix_of_trimmed(url: Seq<char>, a: int, b: int, prefix: Seq<char>)
    requires
        0 <= a <= b <= url.len(),
        all_white(url.skip(b)),
        prefix.len() > 0,
        !is_white_space(prefix.last()),
    ensures
        prefix.is_prefix_of(url.subrange(a, b)) <==> prefix.is_prefix_of(url.skip(a)),
{
    let n = prefix.len() as int;
    let chosen = url.subrange(a, b);
    let rest = url.skip(a);
    if prefix.is_prefix_of(rest) {
        assert(rest.take(n)[n - 1] == prefix[n - 1]);
        assert(rest[n - 1] == url[a + n - 1]);
        if a + n - 1 >= b {
            assert(url.skip(b)[a + n - 1 - b] == url[a + n - 1]);
        }
        assert(chosen.take(n) =~= rest.take(n));
    }
    if prefix.is_prefix_of(chosen) {
        assert(chosen.take(n) =~= rest.take(n));
    }
}

/// What a call is set up with, one by one: what was chosen on the page, without the white space
/// around it, and what the server is configured with where that is blank.
pub proof fn law_a_call_is_set_up_as_chosen(config: Config, settings: CallSettings, plan: CallPlan)
    requires
        call_ensures(plan_call, (&config, &settings), plan),
    ensures
        plan.endpointing.endpointing == settings.endpointing,
        plan.endpointing.utterance_end_ms == settings.utterance_end_ms,
        is_chosen(plan.model@, settings.model@, config.openai_model@),
        is_chosen(plan.base_url@, settings.base_url@, config.openai_base_url@),
        is_chosen(plan.voice@, settings.voice@, config.murf_voice@),
        is_chosen(plan.language@, settings.language@, config.stt_language@),
        is_chosen(plan.system_prompt@, settings.system_prompt@, config.system_prompt@),
        plan.base_url_overridden <==> !all_white(settings.base_url@),
{
    lemma_is_chosen(settings.model@, config.openai_model@);
    lemma_is_chosen(settings.base_url@, config.openai_base_url@);
    lemma_is_chosen(settings.voice@, config.murf_voice@);
    lemma_is_chosen(settings.language@, config.stt_language@);
    lemma_is_chosen(settings.system_prompt@, config.system_prompt@);
    let _ = lemma_trimmed_bounds(settings.base_url@);
}

/// Whether `r` is the default where nothing was set, and otherwise what was set without the white
/// space around it.
pub open spec fn is_chosen(r: Seq<char>, setting: Seq<char>, default: Seq<char>) -> bool {
    if all_white(setting) {
        r == default
    } else {
        crate::chunker::stands_in(r, setting)
    }
}

proof fn lemma_is_chosen(setting: Seq<char>, default: Seq<char>)
    ensures
        is_chosen(chosen_or(setting, default), setting, default),
{
    let (a, b) = lemma_trimmed_bounds(setting);
    assert(trimmed(setting) == setting.subrange(a, b));
}

/// A call is told when its peer connects, when it drops out, and when it is gone for good, and of
/// nothing else.
pub proof fn law_a_call_is_told_of_its_peer(state: PeerState, r: Option<Signal>)
    requires
        call_ensures(signal, (state,), r),
    ensures
        r == Some(Signal::Connected) <==> state is Connected,
        r == Some(Signal::Disconnected) <==> state is Disconnected,
        r == Some(Signal::Closed) <==> state is Failed || state is Closed,
        r is None <==> state is New || state is Connecting,
{
}

/// Audio goes out as the first codec and on the first stream, and cannot where either is missing.
pub proof fn law_audio_goes_out_on_the_first_stream(
    payload_types: Vec<u8>,
    ssrcs: Vec<u32>,
    r: Result<(u8, u32), String>,
)
    requires
        call_ensures(outgoing_stream, (&payload_types, &ssrcs), r),
    ensures
        r is Ok <==> payload_types@.len() > 0 && ssrcs@.len() > 0,
        r matches Ok(stream) ==> stream.0 == payload_types@[0] && stream.1 == ssrcs@[0],
        payload_types@.len() == 0 ==> r->Err_0@ == "sender has no negotiated codec"@,
        payload_types@.len() > 0 && ssrcs@.len() == 0 ==> r->Err_0@ == "track has no ssrc"@,
{
}

/// A call that waits for its caller starts when they connect, is given up when the connection is
/// closed or takes too long, and passes over everything else.
pub proof fn law_a_call_waits_for_its_caller(
    call: &mut CallState,
    event: CallEvent,
    action: CallAction,
)
    requires
        call_ensures(CallState::on_event, (call, event), action),
        old(call).phase is Connecting,
    ensures
        match event {
            CallEvent::Connected => action is Start && final(call).phase is Live,
            CallEvent::Closed => action is Abandon && final(call).phase is Ended,
            CallEvent::ConnectTimeout => action is AbandonTimedOut && final(call).phase is Ended,
            _ => action is Wait && final(call).phase is Connecting,
        },
{
}

/// A live call ends when it is closed, when its time is up and when no more audio can be sent; it
/// waits when the caller drops out, and passes over everything else.
pub proof fn law_a_live_call_goes_on_until_it_ends(
    call: &mut CallState,
    event: CallEvent,
    action: CallAction,
)
    requires
        call_ensures(CallState::on_event, (call, event), action),
        old(call).phase is Live,
    ensures
        match event {
            CallEvent::Closed | CallEvent::TimeLimit => action is HangUp && final(call).phase is Ended,
            CallEvent::AudioStopped { clean } => final(call).phase is Ended && if clean {
                action is HangUp
            } else {
                action is HangUpFailed
            },
            CallEvent::Disconnected => action is Wait && final(call).phase is Recovering,
            _ => action is Wait && final(call).phase is Live,
        },
{
}

/// A call whose caller dropped out goes on where they come back, ends where they stay away, where
/// it is closed and where no more audio can be sent, and passes over everything else.
pub proof fn law_a_dropped_call_waits_a_while(
    call: &mut CallState,
    event: CallEvent,
    action: CallAction,
)
    requires
        call_ensures(CallState::on_event, (call, event), action),
        old(call).phase is Recovering,
    ensures
        match event {
            CallEvent::Connected => action is Wait && final(call).phase is Live,
            CallEvent::Closed | CallEvent::GraceOver => action is HangUp && final(call).phase is Ended,
            CallEvent::AudioStopped { clean } => final(call).phase is Ended && if clean {
                action is HangUp
            } else {
                action is HangUpFailed
            },
            _ => action is Wait && final(call).phase is Recovering,
        },
{
}

/// Nothing happens to a call that is over; and an event is waited for exactly where it would do
/// something.
pub proof fn law_a_call_that_is_over_stays_over(
    call: &mut CallState,
    event: CallEvent,
    action: CallAction,
    same_call: CallState,
    awaited: bool,
)
    requires
        call_ensures(CallState::on_event, (call, event), action),
        same_call.phase == old(call).phase,
        call_ensures(CallState::awaits, (&same_call, event), awaited),
    ensures
        old(call).phase is Ended ==> action is Wait && final(call).phase is Ended,
        awaited <==> !(action is Wait) || final(call).phase != old(call).phase,
{
}

/// The next port of a search is the one after the last, round and round through the range from
/// where it started; and it stops once there were as many as the range holds.
pub proof fn law_a_search_goes_round_the_range(search: &mut PortSearch, r: Option<u16>)
    requires
        search_ok(old(search)@),
        call_ensures(PortSearch::next, (search,), r),
    ensures
        ({
            let s = old(search)@;
            let n = s.range.max - s.range.min + 1;
            &&& r is Some <==> s.tried < n
            &&& r matches Some(port) ==> s.range.min <= port <= s.range.max && (exists|turns: int|
                0 <= turns && #[trigger] (turns * n) + (port - s.range.min) == s.start + s.tried)
            &&& final(search)@.range == s.range
            &&& final(search)@.start == s.start
            &&& final(search)@.tried == if r is Some {
                s.tried + 1
            } else {
                s.tried
            }
        }),
{
    let s = old(search)@;
    let n = s.range.max - s.range.min + 1;
    let at = (s.start + s.tried) as int;
    if s.tried < n {
        vstd::arithmetic::div_mod::lemma_fundamental_div_mod(at, n);
        let turns = at / n;
        assert(turns * n == n * turns) by (nonlinear_arith);
        assert(turns >= 0) by (nonlinear_arith)
            requires
                at >= 0,
                n > 0,
                turns == at / n,
        ;
        assert((turns * n) + (at % n) == at);
    }
}

/// A search that found no port names the range it went through.
pub proof fn law_a_failed_search_names_its_range(search: PortSearch, e: String)
    requires
        call_ensures(PortSearch::failure, (&search,), e),
    ensures
        e@ == "no free UDP port in "@ + decimal_text(search@.range.min as nat) + "..="@
            + decimal_text(search@.range.max as nat),
{
}

} // verus!
