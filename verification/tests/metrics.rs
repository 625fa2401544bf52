use sol_li_ni::metrics::{ms, TurnMetrics};
use sol_li_ni::time::{Moment, Span, MAX_SPAN_NANOS};

fn at(millis: u64) -> Moment {
    Moment { nanos: millis * 1_000_000 }
}

fn lasting(millis: u64) -> Span {
    Span::from_millis(millis)
}

#[test]
fn times_are_reported_in_whole_milliseconds() {
    assert_eq!(ms(Span { nanos: 0 }), "0 ms");
    assert_eq!(ms(Span { nanos: 1_999_999 }), "1 ms");
    assert_eq!(ms(lasting(123_456)), "123456 ms");
}

#[test]
fn a_turn_without_results_reports_nothing() {
    assert_eq!(TurnMetrics::default().utterance_end(at(10)), None);
}

#[test]
fn a_turn_reports_its_average_and_its_longest_partial() {
    let mut m = TurnMetrics::default();
    m.interim(Some(lasting(100)));
    m.interim(Some(lasting(301)));
    m.interim(None);
    m.transcript_final(Some(lasting(80)), at(1_000));
    assert_eq!(
        m.utterance_end(at(1_400)).unwrap(),
        "deepgram latency: partial avg 200 ms (max 301 ms, n=2) | partial unmeasured n=1 \
         | final 80 ms | endpoint 480 ms"
    );
    // The next turn starts from nothing.
    assert_eq!(m.utterance_end(at(1_500)), None);
}

#[test]
fn a_final_without_lag_says_so() {
    let mut m = TurnMetrics::default();
    m.transcript_final(None, at(5));
    assert_eq!(m.utterance_end(at(6)).unwrap(), "deepgram latency: final unmeasured");
}

#[test]
fn an_endpoint_is_never_negative() {
    let mut m = TurnMetrics::default();
    m.transcript_final(Some(lasting(1)), at(1_000));
    assert_eq!(
        m.utterance_end(at(900)).unwrap(),
        "deepgram latency: final 1 ms | endpoint 0 ms"
    );
}

#[test]
fn the_reply_is_measured_from_the_end_of_the_turn() {
    let mut m = TurnMetrics::default();
    assert_eq!(m.llm_done(at(1)), None);
    let _ = m.utterance_end(at(1_000));
    assert_eq!(m.llm_done(at(1_100)).unwrap(), "llm latency: full reply 100 ms");
    m.llm_first_token(at(1_200));
    assert_eq!(
        m.llm_done(at(1_500)).unwrap(),
        "llm latency: first token 200 ms | full reply 500 ms"
    );
    assert_eq!(
        m.response_audible(at(1_600)).unwrap(),
        "response metrics: overall 600 ms | llm first token 200 ms"
    );
    // Later frames of the same turn do nothing.
    assert_eq!(m.response_audible(at(1_620)), None);
}

#[test]
fn the_model_is_measured_to_the_end_of_its_reply() {
    let mut m = TurnMetrics::default();
    let _ = m.utterance_end(at(1_000));
    m.llm_first_token(at(1_200));
    // The caller hears the first sentence while the rest is still being written.
    assert!(m.response_audible(at(1_300)).is_some());
    for _ in 0..2 {
        assert_eq!(
            m.llm_done(at(1_900)).unwrap(),
            "llm latency: first token 200 ms | full reply 900 ms"
        );
    }
    // The same where audio comes before the first token is noted.
    let _ = m.utterance_end(at(3_000));
    assert!(m.response_audible(at(3_100)).is_some());
    m.llm_first_token(at(3_200));
    assert_eq!(
        m.llm_done(at(3_300)).unwrap(),
        "llm latency: first token 200 ms | full reply 300 ms"
    );
}

#[test]
fn an_interruption_stops_the_clock() {
    let mut m = TurnMetrics::default();
    let _ = m.utterance_end(at(1_000));
    m.llm_first_token(at(1_200));
    assert_eq!(m.interrupted(lasting(60)), "barge-in: dropped 60 ms of queued speech");
    assert_eq!(m.response_audible(at(1_600)), None);
    m.llm_first_token(at(1_700));
    assert_eq!(m.llm_done(at(1_800)), None);
}

#[test]
fn time_between_moments_is_never_negative() {
    assert_eq!(at(5).since(at(3)), lasting(2));
    assert_eq!(at(3).since(at(5)), lasting(0));
    assert!(at(3).since(at(5)).is_zero());
    assert_eq!(lasting(7).as_millis(), 7);
}

#[test]
fn a_turn_that_adds_up_to_too_much_cannot_be_reported() {
    let mut m = TurnMetrics::default();
    assert!(m.can_report() && m.can_count(None) && m.can_count(Some(lasting(1))));
    m.interim(Some(Span { nanos: MAX_SPAN_NANOS }));
    assert!(m.can_report());
    m.interim(Some(Span { nanos: 1 }));
    assert!(!m.can_report());
    let mut m = TurnMetrics::default();
    m.transcript_final(Some(Span { nanos: MAX_SPAN_NANOS + 1 }), at(1));
    assert!(!m.can_report());
}

#[test]
fn the_average_stays_within_the_maximum() {
    let mut m = TurnMetrics::default();
    for lag in [1, 2, 900] {
        m.interim(Some(lasting(lag)));
    }
    assert_eq!(
        m.utterance_end(at(1)).unwrap(),
        "deepgram latency: partial avg 301 ms (max 900 ms, n=3)"
    );
}
