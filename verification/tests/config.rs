use sol_li_ni::config::{AddressVar, Config, ConfigError, PortRange, Vars};

fn text(s: &str) -> Option<String> {
    Some(s.to_owned())
}

/// A variable for an address, read as the program reads it.
fn address(s: &str) -> Option<AddressVar> {
    let octets = s.trim().split('.').filter(|part| part.parse::<u8>().is_ok()).count();
    let issue = if octets == 4 { None } else { text("invalid IP address syntax") };
    Some(AddressVar { value: s.to_owned(), issue })
}

/// The least an environment has to hold.
fn vars() -> Vars {
    Vars {
        deepgram_api_key: text("dg"),
        deepgram_url: None,
        openai_api_key: text("oa"),
        openai_base_url: None,
        openai_model: None,
        murf_api_key: text("mu"),
        murf_url: None,
        murf_voice: None,
        system_prompt: None,
        stt_language: None,
        addr: None,
        access_token: None,
        allow_base_url_override: None,
        max_calls: None,
        max_call_secs: None,
        rtc_bind_ip: None,
        public_ip: None,
        rtc_port_min: None,
        rtc_port_max: None,
    }
}

fn config(vars: Vars) -> Config {
    match Config::from_env(vars) {
        Ok(config) => config,
        Err(e) => panic!("{e:?}"),
    }
}

fn issue(vars: Vars) -> ConfigError {
    match Config::from_env(vars) {
        Ok(_) => panic!("this environment must be refused"),
        Err(e) => e,
    }
}

fn invalid(error: ConfigError) -> (String, String, String) {
    match error {
        ConfigError::Invalid { name, value, reason } => (name, value, reason),
        other => panic!("{other:?}"),
    }
}

#[test]
fn the_defaults_are_the_documented_ones() {
    let c = config(vars());
    assert_eq!(c.deepgram_key, "dg");
    assert_eq!(c.deepgram_url, "wss://api.deepgram.com/v1/listen");
    assert_eq!(c.openai_key, "oa");
    assert_eq!(c.openai_base_url, "https://api.groq.com/openai/v1");
    assert_eq!(c.openai_model, "gpt-5.2-mini");
    assert_eq!(c.murf_key, "mu");
    assert_eq!(c.murf_url, "wss://global.api.murf.ai/v1/speech/stream-input");
    assert_eq!(c.murf_voice, "en-US-natalie");
    assert!(c.system_prompt.starts_with("You are a voice assistant in a live phone-style"));
    assert!(c.system_prompt.ends_with("If you need something clarified, just ask."));
    assert!(!c.system_prompt.contains("  "));
    assert_eq!(c.stt_language, "en");
    assert_eq!(c.addr, "127.0.0.1:8080");
    assert_eq!(c.access_token, None);
    assert!(!c.allow_base_url_override);
    assert_eq!(c.max_calls, 10);
    assert_eq!(c.max_call_secs, 1800);
    assert_eq!(c.rtc_bind_ip, None);
    assert_eq!(c.public_ip, None);
    assert_eq!(c.rtc_ports, None);
}

#[test]
fn values_that_are_set_are_used() {
    let mut v = vars();
    v.openai_model = text("m");
    v.stt_language = text("hi");
    v.access_token = text("secret");
    v.allow_base_url_override = text(" true ");
    v.max_calls = text("+3");
    v.max_call_secs = text("60");
    v.rtc_bind_ip = address(" 10.0.0.1 ");
    v.public_ip = address("  ");
    v.rtc_port_min = text("50000");
    v.rtc_port_max = text("50002");
    let c = config(v);
    assert_eq!(c.openai_model, "m");
    assert_eq!(c.stt_language, "hi");
    assert_eq!(c.access_token.as_deref(), Some("secret"));
    assert!(c.allow_base_url_override);
    assert_eq!(c.max_calls, 3);
    assert_eq!(c.max_call_secs, 60);
    assert_eq!(c.rtc_bind_ip.as_deref(), Some("10.0.0.1"));
    assert_eq!(c.public_ip, None);
    assert_eq!(c.rtc_ports, Some(PortRange { min: 50000, max: 50002 }));
}

#[test]
fn an_empty_token_is_no_token() {
    let mut v = vars();
    v.access_token = text("");
    assert_eq!(config(v).access_token, None);
}

#[test]
fn blank_numbers_are_as_good_as_unset() {
    let mut v = vars();
    v.max_calls = text(" \t");
    v.max_call_secs = text("");
    v.rtc_port_min = text(" ");
    let c = config(v);
    assert_eq!(c.max_calls, 10);
    assert_eq!(c.max_call_secs, 1800);
}

#[test]
fn missing_keys_are_named_in_order() {
    for (unset, name) in [
        (7, "DEEPGRAM_API_KEY"),
        (6, "OPENAI_API_KEY"),
        (4, "MURF_API_KEY"),
    ] {
        let mut v = vars();
        if unset & 1 != 0 {
            v.deepgram_api_key = None;
        }
        if unset & 2 != 0 {
            v.openai_api_key = None;
        }
        if unset & 4 != 0 {
            v.murf_api_key = None;
        }
        assert!(matches!(issue(v), ConfigError::Missing { name: n } if n == name));
    }
}

#[test]
fn numbers_that_do_not_parse_are_errors() {
    for (value, reason) in [
        ("many", "invalid digit found in string"),
        ("-1", "invalid digit found in string"),
        ("+", "invalid digit found in string"),
        ("1 2", "invalid digit found in string"),
        ("99999999999999999999", "number too large to fit in target type"),
    ] {
        let mut v = vars();
        v.max_calls = text(value);
        let (name, given, why) = invalid(issue(v));
        assert_eq!((name.as_str(), given.as_str(), why.as_str()), ("MAX_CALLS", value, reason));
        assert_eq!(why, value.parse::<usize>().unwrap_err().to_string());
    }
}

#[test]
fn the_value_is_quoted_as_it_was_given() {
    let mut v = vars();
    v.max_call_secs = text(" 5s ");
    assert_eq!(invalid(issue(v)).1, " 5s ");
}

#[test]
fn a_switch_is_true_or_false() {
    let mut v = vars();
    v.allow_base_url_override = text("false");
    assert!(!config(v).allow_base_url_override);
    let mut v = vars();
    v.allow_base_url_override = text("yes");
    let (name, value, reason) = invalid(issue(v));
    assert_eq!(name, "ALLOW_BASE_URL_OVERRIDE");
    assert_eq!(value, "yes");
    assert_eq!(reason, "yes".parse::<bool>().unwrap_err().to_string());
}

#[test]
fn a_port_range_needs_both_ends_in_order() {
    for (min, max) in [(text("5"), None), (None, text("5")), (text("6"), text("5"))] {
        let mut v = vars();
        v.rtc_port_min = min;
        v.rtc_port_max = max;
        assert!(matches!(issue(v), ConfigError::PortsUnpaired));
    }
    let mut v = vars();
    v.rtc_port_min = text("65536");
    assert_eq!(invalid(issue(v)).0, "RTC_PORT_MIN");
}

#[test]
fn every_call_needs_its_own_port() {
    let mut v = vars();
    v.rtc_port_min = text("50000");
    v.rtc_port_max = text("50008");
    assert!(matches!(issue(v), ConfigError::TooFewPorts { ports: 9, max_calls: 10 }));
    let mut v = vars();
    v.rtc_port_min = text("50000");
    v.rtc_port_max = text("50009");
    assert_eq!(config(v).rtc_ports.unwrap().len(), 10);
}

#[test]
fn ports_are_checked_before_keys() {
    let mut v = vars();
    v.deepgram_api_key = None;
    v.rtc_port_min = text("1");
    assert!(matches!(issue(v), ConfigError::PortsUnpaired));
}

#[test]
fn addresses_that_do_not_parse_are_errors() {
    let mut v = vars();
    v.rtc_bind_ip = address(" here ");
    v.public_ip = address("there");
    let (name, value, reason) = invalid(issue(v));
    assert_eq!(
        (name.as_str(), value.as_str(), reason.as_str()),
        ("RTC_BIND_IP", " here ", "invalid IP address syntax")
    );
    let mut v = vars();
    v.rtc_bind_ip = address("10.0.0.1");
    v.public_ip = address("there");
    assert_eq!(invalid(issue(v)).0, "PUBLIC_IP");
    // Numbers come first.
    let mut v = vars();
    v.max_call_secs = text("soon");
    v.public_ip = address("there");
    assert_eq!(invalid(issue(v)).0, "MAX_CALL_SECS");
}

#[test]
fn errors_read_well() {
    let text = |s: &str| s.to_owned();
    assert_eq!(
        ConfigError::Missing { name: text("MURF_API_KEY") }.message(""),
        "MURF_API_KEY is not set (put it in .env)"
    );
    let value = " 5\"s ";
    assert_eq!(
        ConfigError::Invalid { name: text("MAX_CALLS"), value: text(value), reason: text("why") }
            .message(&format!("{value:?}")),
        "MAX_CALLS=\" 5\\\"s \" is invalid: why"
    );
    assert_eq!(
        ConfigError::PortsUnpaired.message(""),
        "RTC_PORT_MIN and RTC_PORT_MAX must both be set, with MIN <= MAX"
    );
    assert_eq!(
        ConfigError::TooFewPorts { ports: 9, max_calls: 10 }.message(""),
        "RTC_PORT_MIN..RTC_PORT_MAX has 9 ports but MAX_CALLS is 10: each call needs its own"
    );
}
