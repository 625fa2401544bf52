use sol_li_ni::config::{Config, Vars};
use sol_li_ni::server::{
    authorize, check_offer, client_config, constant_time_eq, listening_line, startup_warnings,
    Refusal,
};
use sol_li_ni::session::CallSettings;

#[test]
fn tokens_compare_exactly() {
    assert!(constant_time_eq(b"secret", b"secret"));
    assert!(!constant_time_eq(b"secret", b"secreT"));
    assert!(!constant_time_eq(b"secret", b"secret-longer"));
    assert!(!constant_time_eq(b"", b"secret"));
}

fn server(token: Option<&str>, addr: &str, allow: bool) -> Config {
    let text = |s: &str| Some(s.to_owned());
    let vars = Vars {
        deepgram_api_key: text("dg-secret"),
        deepgram_url: None,
        openai_api_key: text("oa-secret"),
        openai_base_url: None,
        openai_model: text("model"),
        murf_api_key: text("mu-secret"),
        murf_url: None,
        murf_voice: text("voice"),
        system_prompt: text("prompt"),
        stt_language: text("hi"),
        addr: text(addr),
        access_token: token.map(str::to_owned),
        allow_base_url_override: text(if allow { "true" } else { "false" }),
        max_calls: None,
        max_call_secs: text("90"),
        rtc_bind_ip: None,
        public_ip: None,
        rtc_port_min: None,
        rtc_port_max: None,
    };
    match Config::from_env(vars) {
        Ok(config) => config,
        Err(e) => panic!("{e:?}"),
    }
}

fn refused(r: Result<(), Refusal>) -> (u16, String) {
    match r {
        Ok(()) => panic!("this must be refused"),
        Err(refusal) => (refusal.status, refusal.message),
    }
}

#[test]
fn without_a_token_everyone_is_let_in() {
    let config = server(None, "127.0.0.1:8080", false);
    assert!(authorize(&config, None).is_ok());
    assert!(authorize(&config, Some("Bearer anything")).is_ok());
}

#[test]
fn only_the_configured_token_is_let_in() {
    let config = server(Some("sesame"), "127.0.0.1:8080", false);
    assert!(authorize(&config, Some("Bearer sesame")).is_ok());
    for header in [
        None,
        Some(""),
        Some("sesame"),
        Some("bearer sesame"),
        Some("Bearer sesam"),
        Some("Bearer sesame "),
        Some("Bearer  sesame"),
        Some("Basic sesame"),
    ] {
        assert_eq!(
            refused(authorize(&config, header)),
            (401, "A valid access token is required.".to_owned())
        );
    }
}

#[test]
fn an_offer_is_checked_for_its_token_before_its_settings() {
    let config = server(Some("sesame"), "127.0.0.1:8080", false);
    let mut settings = CallSettings::default();
    settings.base_url = "https://elsewhere".to_owned();
    assert_eq!(refused(check_offer(&config, None, &settings)).0, 401);
    assert_eq!(
        refused(check_offer(&config, Some("Bearer sesame"), &settings)),
        (400, "this server does not allow overriding the base URL".to_owned())
    );
    assert!(check_offer(&config, Some("Bearer sesame"), &CallSettings::default()).is_ok());
}

#[test]
fn other_refusals_have_their_own_status() {
    let busy = Refusal::busy();
    assert_eq!(busy.status, 503);
    assert_eq!(busy.message, "The agent is busy with other calls. Try again shortly.");
    let failed = Refusal::failed();
    assert_eq!(failed.status, 500);
    assert_eq!(failed.message, "Could not start the call.");
}

#[test]
fn the_page_is_told_the_defaults_and_no_secrets() {
    let c = client_config(&server(Some("sesame"), "127.0.0.1:8080", true));
    assert!(c.access_token_required);
    assert!(c.allow_base_url_override);
    assert_eq!(c.max_call_secs, 90);
    assert_eq!(c.default_model, "model");
    assert_eq!(c.default_voice, "voice");
    assert_eq!(c.default_language, "hi");
    assert_eq!(c.default_system_prompt, "prompt");
    let told = format!("{c:?}");
    assert!(!told.contains("secret") && !told.contains("sesame"));
    assert!(!client_config(&server(None, "127.0.0.1:1", false)).access_token_required);
}

#[test]
fn an_open_server_is_warned_about() {
    assert!(startup_warnings(&server(None, "127.0.0.1:8080", false)).is_empty());
    assert!(startup_warnings(&server(Some("t"), "0.0.0.0:80", false)).is_empty());
    let open = startup_warnings(&server(None, "0.0.0.0:80", false));
    assert_eq!(open.len(), 1);
    assert!(open[0].starts_with("no ACCESS_TOKEN set while listening beyond localhost"));
    let both = startup_warnings(&server(None, "0.0.0.0:80", true));
    assert_eq!(both.len(), 2);
    assert_eq!(
        both[1],
        "ALLOW_BASE_URL_OVERRIDE is on: callers can send OPENAI_API_KEY to any endpoint"
    );
}

#[test]
fn the_operator_is_told_where_the_server_listens() {
    assert_eq!(
        listening_line(&server(None, "127.0.0.1:8080", false)),
        "sol-li-ni listening on http://127.0.0.1:8080 (max 10 calls, 90 s each)"
    );
    assert_eq!(
        listening_line(&server(Some("t"), "h:1", false)),
        "sol-li-ni listening on http://h:1 (max 10 calls, 90 s each, access token required)"
    );
}
