use sol_li_ni::config::{Config, PortRange, Vars};
use sol_li_ni::session::{
    outgoing_stream, plan_call, signal, CallAction, CallEvent, CallPhase, CallSettings, CallState,
    PeerState, PortSearch, Signal,
};

#[test]
fn settings_start_blank() {
    let s = CallSettings::default();
    assert_eq!((s.endpointing, s.utterance_end_ms), (300, 1000));
    assert_eq!(s.model, "");
    assert_eq!(s.base_url, "");
    assert_eq!(s.voice, "");
    assert_eq!(s.language, "");
    assert_eq!(s.system_prompt, "");
}

fn with_base_url(url: &str) -> CallSettings {
    let mut s = CallSettings::default();
    s.base_url = url.to_owned();
    s
}

#[test]
fn a_base_url_needs_permission_and_a_scheme() {
    for blank in ["", "  ", "\t\n"] {
        assert_eq!(with_base_url(blank).validate(false), Ok(()));
        assert_eq!(with_base_url(blank).validate(true), Ok(()));
    }
    assert_eq!(
        with_base_url("https://x").validate(false),
        Err("this server does not allow overriding the base URL".to_owned())
    );
    for good in ["http://x", "https://x", " https://x "] {
        assert_eq!(with_base_url(good).validate(true), Ok(()));
    }
    for bad in ["ftp://x", "x", "http:/x", "HTTP://x"] {
        assert_eq!(
            with_base_url(bad).validate(true),
            Err("base URL must start with http:// or https://".to_owned())
        );
    }
}

fn server() -> Config {
    let text = |s: &str| Some(s.to_owned());
    let vars = Vars {
        deepgram_api_key: text("dg"),
        deepgram_url: None,
        openai_api_key: text("oa"),
        openai_base_url: text("https://default/v1"),
        openai_model: text("default-model"),
        murf_api_key: text("mu"),
        murf_url: None,
        murf_voice: text("default-voice"),
        system_prompt: text("default prompt"),
        stt_language: text("en"),
        addr: None,
        access_token: None,
        allow_base_url_override: None,
        max_calls: None,
        max_call_secs: None,
        rtc_bind_ip: None,
        public_ip: None,
        rtc_port_min: None,
        rtc_port_max: None,
    };
    match Config::from_env(vars) {
        Ok(config) => config,
        Err(e) => panic!("{e:?}"),
    }
}

#[test]
fn blank_settings_fall_back_to_the_server() {
    let mut s = CallSettings::default();
    s.voice = "   ".to_owned();
    let plan = plan_call(&server(), &s);
    assert_eq!(plan.model, "default-model");
    assert_eq!(plan.base_url, "https://default/v1");
    assert_eq!(plan.voice, "default-voice");
    assert_eq!(plan.language, "en");
    assert_eq!(plan.system_prompt, "default prompt");
    assert!(!plan.base_url_overridden);
    assert_eq!(plan.endpointing.endpointing, 300);
    assert_eq!(plan.endpointing.utterance_end_ms, 1000);
}

#[test]
fn settings_that_are_given_are_used() {
    let s = CallSettings {
        endpointing: 1,
        utterance_end_ms: 2,
        model: " m ".to_owned(),
        base_url: "http://x".to_owned(),
        voice: "v".to_owned(),
        language: "ta\n".to_owned(),
        system_prompt: "be kind".to_owned(),
    };
    let plan = plan_call(&server(), &s);
    assert_eq!(plan.model, "m");
    assert_eq!(plan.base_url, "http://x");
    assert_eq!(plan.voice, "v");
    assert_eq!(plan.language, "ta");
    assert_eq!(plan.system_prompt, "be kind");
    assert!(plan.base_url_overridden);
    assert_eq!(plan.endpointing.endpointing, 1);
    assert_eq!(plan.endpointing.utterance_end_ms, 2);
}

#[test]
fn the_peer_signals_what_matters() {
    assert_eq!(signal(PeerState::New), None);
    assert_eq!(signal(PeerState::Connecting), None);
    assert_eq!(signal(PeerState::Connected), Some(Signal::Connected));
    assert_eq!(signal(PeerState::Disconnected), Some(Signal::Disconnected));
    assert_eq!(signal(PeerState::Failed), Some(Signal::Closed));
    assert_eq!(signal(PeerState::Closed), Some(Signal::Closed));
}

#[test]
fn audio_goes_out_on_the_first_codec_and_stream() {
    assert_eq!(outgoing_stream(&vec![111, 0], &vec![7, 8]), Ok((111, 7)));
    assert_eq!(
        outgoing_stream(&vec![], &vec![]),
        Err("sender has no negotiated codec".to_owned())
    );
    assert_eq!(outgoing_stream(&vec![111], &vec![]), Err("track has no ssrc".to_owned()));
}

#[test]
fn a_call_that_connects_goes_live_and_hangs_up() {
    let mut call = CallState::new();
    assert_eq!(call.on_event(CallEvent::TimeLimit), CallAction::Wait);
    assert_eq!(call.on_event(CallEvent::Connected), CallAction::Start);
    assert_eq!(call.phase, CallPhase::Live);
    assert!(!call.awaits(CallEvent::Connected));
    assert_eq!(call.on_event(CallEvent::Closed), CallAction::HangUp);
    assert_eq!(call.phase, CallPhase::Ended);
    assert_eq!(call.on_event(CallEvent::Connected), CallAction::Wait);
}

#[test]
fn a_call_that_never_connects_is_abandoned() {
    let mut call = CallState::new();
    assert_eq!(call.on_event(CallEvent::ConnectTimeout), CallAction::AbandonTimedOut);
    assert_eq!(call.phase, CallPhase::Ended);
    let mut call = CallState::new();
    assert_eq!(call.on_event(CallEvent::Closed), CallAction::Abandon);
    assert_eq!(call.phase, CallPhase::Ended);
}

#[test]
fn a_blip_is_waited_out_and_a_closed_tab_is_not() {
    let mut call = CallState::new();
    call.on_event(CallEvent::Connected);
    assert_eq!(call.on_event(CallEvent::Disconnected), CallAction::Wait);
    assert_eq!(call.phase, CallPhase::Recovering);
    assert!(!call.awaits(CallEvent::TimeLimit));
    assert_eq!(call.on_event(CallEvent::Connected), CallAction::Wait);
    assert_eq!(call.phase, CallPhase::Live);
    call.on_event(CallEvent::Disconnected);
    assert_eq!(call.on_event(CallEvent::GraceOver), CallAction::HangUp);
    assert_eq!(call.phase, CallPhase::Ended);
}

#[test]
fn a_live_call_ends_at_its_limit_or_with_its_audio() {
    for (event, action) in [
        (CallEvent::TimeLimit, CallAction::HangUp),
        (CallEvent::AudioStopped { clean: true }, CallAction::HangUp),
        (CallEvent::AudioStopped { clean: false }, CallAction::HangUpFailed),
    ] {
        let mut call = CallState::new();
        call.on_event(CallEvent::Connected);
        assert_eq!(call.on_event(event), action);
        assert_eq!(call.phase, CallPhase::Ended);
    }
}

#[test]
fn ports_are_tried_round_robin_once_each() {
    let range = PortRange { min: 50_000, max: 50_003 };
    for start in 0..9usize {
        let mut search = PortSearch::new(range, start);
        let mut tried: Vec<u16> = Vec::new();
        while let Some(port) = search.next() {
            tried.push(port);
        }
        assert_eq!(tried[0], 50_000 + (start % 4) as u16);
        let mut sorted = tried.clone();
        sorted.sort();
        assert_eq!(sorted, [50_000, 50_001, 50_002, 50_003]);
        assert!(search.next().is_none());
        assert_eq!(search.failure(), "no free UDP port in 50000..=50003");
    }
}

#[test]
fn the_widest_range_is_searched_without_overflow() {
    let mut search = PortSearch::new(PortRange { min: 0, max: 65_535 }, 65_535);
    assert_eq!(search.next(), Some(65_535));
    assert_eq!(search.next(), Some(0));
}

#[test]
fn any_start_finds_its_port() {
    let range = PortRange { min: 10, max: 12 };
    let mut search = PortSearch::new(range, usize::MAX);
    let first = 10 + (usize::MAX % 3) as u16;
    assert_eq!(search.next(), Some(first));
    assert_eq!(search.next(), Some(10 + (first - 10 + 1) % 3));
}
