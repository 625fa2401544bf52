//! Runtime configuration, worked out once from the environment.

use vstd::prelude::*;
use vstd::string::*;

use crate::text::{
    all_white, decimal, decimal_text, lemma_trimmed_bounds, number_of, opt_text, parse_number, same,
    trim, trimmed, NumberIssue,
};

verus! {

/// Overridden with `OPENAI_MODEL`; pick whichever fast chat model the account has.
pub const DEFAULT_MODEL: &'static str = "gpt-5.2-mini";

/// Where the server listens unless told otherwise.
pub const DEFAULT_ADDR: &'static str = "127.0.0.1:8080";

/// The environment, variable by variable. One that is not set, or is no text, is `None`.
pub struct Vars {
    pub deepgram_api_key: Option<String>,
    pub deepgram_url: Option<String>,
    pub openai_api_key: Option<String>,
    pub openai_base_url: Option<String>,
    pub openai_model: Option<String>,
    pub murf_api_key: Option<String>,
    pub murf_url: Option<String>,
    pub murf_voice: Option<String>,
    pub system_prompt: Option<String>,
    pub stt_language: Option<String>,
    pub addr: Option<String>,
    pub access_token: Option<String>,
    pub allow_base_url_override: Option<String>,
    pub max_calls: Option<String>,
    pub max_call_secs: Option<String>,
    pub rtc_bind_ip: Option<AddressVar>,
    pub public_ip: Option<AddressVar>,
    pub rtc_port_min: Option<String>,
    pub rtc_port_max: Option<String>,
}

/// A variable for an IP address, and what reading one from it came to.
#[derive(Debug)]
pub struct AddressVar {
    pub value: String,
    /// Why the value, without the white space around it, is no address, where it is none.
    pub issue: Option<String>,
}

/// The UDP ports from `min` to `max`, both included.
#[derive(Debug, Clone, Copy, PartialEq, Eq, Structural)]
pub struct PortRange {
    pub min: u16,
    pub max: u16,
}

impl PortRange {
    pub open spec fn wf(self) -> bool {
        self.min <= self.max
    }

    /// How many ports there are.
    pub open spec fn count(self) -> nat {
        (self.max - self.min + 1) as nat
    }

    pub fn len(self) -> (n: usize)
        requires
            self.wf(),
        ensures
            n == self.count(),
    {
        (self.max - self.min) as usize + 1
    }
}

/// Everything the server is configured with.
pub struct Config {
    // ---- services
    pub deepgram_key: String,
    /// Override for the Deepgram endpoint (on-prem deployments, or a mock during tests).
    pub deepgram_url: String,
    pub openai_key: String,
    /// OpenAI-compatible API root, e.g. `https://api.openai.com/v1`.
    pub openai_base_url: String,
    /// Model ids change often, so this is configurable rather than baked in.
    pub openai_model: String,
    pub murf_key: String,
    pub murf_url: String,
    pub murf_voice: String,
    /// Default instructions for the model. Calls may override it from the page.
    pub system_prompt: String,
    /// Default Deepgram language code (`en`, `multi`, `es`, …). Calls may override it.
    pub stt_language: String,
    // ---- server
    /// Where the HTTP server listens.
    pub addr: String,
    /// Required to start a call when set. Anyone who can start a call spends API credit.
    pub access_token: Option<String>,
    /// Lets the page point the model at another endpoint. Off by default: the server sends
    /// its API key to whatever URL it is given.
    pub allow_base_url_override: bool,
    /// Calls beyond this are refused, capping concurrent spend.
    pub max_calls: usize,
    /// Calls are ended after this many seconds, so a forgotten tab cannot run up a bill.
    pub max_call_secs: u64,
    // ---- WebRTC networking
    /// Local address the media sockets bind to, as text. Defaults to the address of the default
    /// route.
    pub rtc_bind_ip: Option<String>,
    /// Address advertised to browsers, as text. Set it on cloud hosts, where the machine only
    /// knows its private address and browsers must be told the public one.
    pub public_ip: Option<String>,
    /// UDP ports for media, one per call, so a firewall can open a known range. `None` lets the
    /// OS choose, which only works without a firewall in the way.
    pub rtc_ports: Option<PortRange>,
}

/// A configuration, with its texts as characters.
pub struct ConfigView {
    pub deepgram_key: Seq<char>,
    pub deepgram_url: Seq<char>,
    pub openai_key: Seq<char>,
    pub openai_base_url: Seq<char>,
    pub openai_model: Seq<char>,
    pub murf_key: Seq<char>,
    pub murf_url: Seq<char>,
    pub murf_voice: Seq<char>,
    pub system_prompt: Seq<char>,
    pub stt_language: Seq<char>,
    pub addr: Seq<char>,
    pub access_token: Option<Seq<char>>,
    pub allow_base_url_override: bool,
    pub max_calls: nat,
    pub max_call_secs: nat,
    pub rtc_bind_ip: Option<Seq<char>>,
    pub public_ip: Option<Seq<char>>,
    pub rtc_ports: Option<PortRange>,
}

impl View for Config {
    type V = ConfigView;

    open spec fn view(&self) -> ConfigView {
        ConfigView {
            deepgram_key: self.deepgram_key@,
            deepgram_url: self.deepgram_url@,
            openai_key: self.openai_key@,
            openai_base_url: self.openai_base_url@,
            openai_model: self.openai_model@,
            murf_key: self.murf_key@,
            murf_url: self.murf_url@,
            murf_voice: self.murf_voice@,
            system_prompt: self.system_prompt@,
            stt_language: self.stt_language@,
            addr: self.addr@,
            access_token: opt_text(self.access_token),
            allow_base_url_override: self.allow_base_url_override,
            max_calls: self.max_calls as nat,
            max_call_secs: self.max_call_secs as nat,
            rtc_bind_ip: opt_text(self.rtc_bind_ip),
            public_ip: opt_text(self.public_ip),
            rtc_ports: self.rtc_ports,
        }
    }
}

/// What is wrong with the environment.
#[derive(Debug)]
pub enum ConfigError {
    /// A variable that must be set is not.
    Missing { name: String },
    /// A variable holds a value that does not parse: an error rather than a silent fallback to
    /// the default.
    Invalid { name: String, value: String, reason: String },
    /// Only one end of the port range is set, or the ends are the wrong way round.
    PortsUnpaired,
    /// The port range is smaller than the number of calls, each of which needs its own.
    TooFewPorts { ports: usize, max_calls: usize },
}

/// What is wrong, with its texts as characters.
pub enum ConfigErrorView {
    Missing { name: Seq<char> },
    Invalid { name: Seq<char>, value: Seq<char>, reason: Seq<char> },
    PortsUnpaired,
    TooFewPorts { ports: nat, max_calls: nat },
}

impl View for ConfigError {
    type V = ConfigErrorView;

    open spec fn view(&self) -> ConfigErrorView {
        match *self {
            ConfigError::Missing { name } => ConfigErrorView::Missing { name: name@ },
            ConfigError::Invalid { name, value, reason } => ConfigErrorView::Invalid {
                name: name@,
                value: value@,
                reason: reason@,
            },
            ConfigError::PortsUnpaired => ConfigErrorView::PortsUnpaired,
            ConfigError::TooFewPorts { ports, max_calls } => ConfigErrorView::TooFewPorts {
                ports: ports as nat,
                max_calls: max_calls as nat,
            },
        }
    }
}

/// What is said of an environment that is turned down. `quoted` is the value that does not parse,
/// in quotes.
pub open spec fn error_text(e: ConfigErrorView, quoted: Seq<char>) -> Seq<char> {
    match e {
        ConfigErrorView::Missing { name } => name + " is not set (put it in .env)"@,
        ConfigErrorView::Invalid { name, reason, .. } => name + "="@ + quoted + " is invalid: "@
            + reason,
        ConfigErrorView::PortsUnpaired =>
            "RTC_PORT_MIN and RTC_PORT_MAX must both be set, with MIN <= MAX"@,
        ConfigErrorView::TooFewPorts { ports, max_calls } => "RTC_PORT_MIN..RTC_PORT_MAX has "@
            + decimal_text(ports) + " ports but MAX_CALLS is "@ + decimal_text(max_calls)
            + ": each call needs its own"@,
    }
}

impl ConfigError {
    /// What is said of an environment that is turned down. `quoted` is the value that does not
    /// parse, in quotes.
    pub fn message(&self, quoted: &str) -> (m: String)
        ensures
            m@ == error_text(self@, quoted@),
    {
        match self {
            ConfigError::Missing { name } => {
                let mut m = name.clone();
                m.append(" is not set (put it in .env)");
                m
            },
            ConfigError::Invalid { name, reason, .. } => {
                let mut m = name.clone();
                m.append("=");
                m.append(quoted);
                m.append(" is invalid: ");
                m.append(reason.as_str());
                m
            },
            ConfigError::PortsUnpaired =>
                "RTC_PORT_MIN and RTC_PORT_MAX must both be set, with MIN <= MAX".to_owned(),
            ConfigError::TooFewPorts { ports, max_calls } => {
                let mut m = "RTC_PORT_MIN..RTC_PORT_MAX has ".to_owned();
                m.append(decimal(*ports as u128).as_str());
                m.append(" ports but MAX_CALLS is ");
                m.append(decimal(*max_calls as u128).as_str());
                m.append(": each call needs its own");
                m
            },
        }
    }
}

// ---- one variable

/// The text of an optional variable: white space around it does not count, and a blank one is
/// as good as unset.
pub open spec fn given(value: Option<Seq<char>>) -> Option<Seq<char>> {
    match value {
        Some(v) => if trimmed(v).len() == 0 {
            None
        } else {
            Some(trimmed(v))
        },
        None => None,
    }
}

/// Why a text is not a number.
pub open spec fn number_reason(issue: NumberIssue) -> Seq<char> {
    match issue {
        NumberIssue::Empty => "cannot parse integer from empty string"@,
        NumberIssue::InvalidDigit => "invalid digit found in string"@,
        NumberIssue::TooLarge => "number too large to fit in target type"@,
    }
}

/// The number up to `max` in an optional variable.
pub open spec fn number_in(name: Seq<char>, value: Option<Seq<char>>, max: nat) -> Result<
    Option<nat>,
    ConfigErrorView,
> {
    match given(value) {
        None => Ok(None),
        Some(text) => match number_of(text, max) {
            Ok(n) => Ok(Some(n)),
            Err(issue) => Err(
                ConfigErrorView::Invalid {
                    name,
                    value: value->0,
                    reason: number_reason(issue),
                },
            ),
        },
    }
}

/// The switch in an optional variable.
pub open spec fn flag_in(name: Seq<char>, value: Option<Seq<char>>) -> Result<
    Option<bool>,
    ConfigErrorView,
> {
    match given(value) {
        None => Ok(None),
        Some(text) => if text == "true"@ {
            Ok(Some(true))
        } else if text == "false"@ {
            Ok(Some(false))
        } else {
            Err(
                ConfigErrorView::Invalid {
                    name,
                    value: value->0,
                    reason: "provided string was not `true` or `false`"@,
                },
            )
        },
    }
}

/// The text of an address variable.
pub open spec fn address_text(address: Option<AddressVar>) -> Option<Seq<char>> {
    match address {
        Some(a) => Some(a.value@),
        None => None,
    }
}

/// The address in an optional variable, as text.
pub open spec fn address_in(name: Seq<char>, address: Option<AddressVar>) -> Result<
    Option<Seq<char>>,
    ConfigErrorView,
> {
    match (given(address_text(address)), address) {
        (Some(text), Some(a)) => match a.issue {
            Some(reason) => Err(
                ConfigErrorView::Invalid { name, value: a.value@, reason: reason@ },
            ),
            None => Ok(Some(text)),
        },
        _ => Ok(None),
    }
}

/// A variable's text, or a default.
pub open spec fn or_text(value: Option<Seq<char>>, default: Seq<char>) -> Seq<char> {
    match value {
        Some(v) => v,
        None => default,
    }
}

/// A variable that must be set.
pub fn var(name: &str, value: Option<String>) -> (r: Result<String, ConfigError>)
    ensures
        match r {
            Ok(v) => opt_text(value) == Some(v@),
            Err(e) => value is None && e@ == (ConfigErrorView::Missing { name: name@ }),
        },
{
    match value {
        Some(v) => Ok(v),
        None => Err(ConfigError::Missing { name: name.to_owned() }),
    }
}

/// A variable's text, or a default.
pub fn or(value: Option<String>, default: &str) -> (r: String)
    ensures
        r@ == or_text(opt_text(value), default@),
{
    match value {
        Some(v) => v,
        None => default.to_owned(),
    }
}

/// The text of an optional variable: unset and blank are both `None`.
pub fn optional(value: &Option<String>) -> (r: Option<String>)
    ensures
        opt_text(r) == given(opt_text(*value)),
{
    match value {
        Some(v) => {
            let text = trim(v.as_str());
            if text.is_empty() {
                None
            } else {
                Some(text.to_owned())
            }
        },
        None => None,
    }
}

/// The number up to `max` in an optional variable.
pub fn optional_number(name: &str, value: &Option<String>, max: u64) -> (r: Result<
    Option<u64>,
    ConfigError,
>)
    ensures
        match r {
            Ok(Some(n)) => number_in(name@, opt_text(*value), max as nat) == Ok::<
                Option<nat>,
                ConfigErrorView,
            >(Some(n as nat)),
            Ok(None) => number_in(name@, opt_text(*value), max as nat) == Ok::<
                Option<nat>,
                ConfigErrorView,
            >(None),
            Err(e) => number_in(name@, opt_text(*value), max as nat) == Err::<
                Option<nat>,
                ConfigErrorView,
            >(e@),
        },
        r matches Ok(Some(n)) ==> n <= max,
{
    let text = match optional(value) {
        Some(text) => text,
        None => return Ok(None),
    };
    match parse_number(text.as_str(), max) {
        Ok(n) => Ok(Some(n)),
        Err(issue) => {
            let reason = match issue {
                NumberIssue::Empty => "cannot parse integer from empty string",
                NumberIssue::InvalidDigit => "invalid digit found in string",
                NumberIssue::TooLarge => "number too large to fit in target type",
            };
            Err(
                ConfigError::Invalid {
                    name: name.to_owned(),
                    value: or(value.clone(), ""),
                    reason: reason.to_owned(),
                },
            )
        },
    }
}

/// The switch in an optional variable.
pub fn optional_flag(name: &str, value: &Option<String>) -> (r: Result<Option<bool>, ConfigError>)
    ensures
        match r {
            Ok(b) => flag_in(name@, opt_text(*value)) == Ok::<Option<bool>, ConfigErrorView>(b),
            Err(e) => flag_in(name@, opt_text(*value)) == Err::<Option<bool>, ConfigErrorView>(
                e@,
            ),
        },
{
    let text = match optional(value) {
        Some(text) => text,
        None => return Ok(None),
    };
    if same(text.as_str(), "true") {
        Ok(Some(true))
    } else if same(text.as_str(), "false") {
        proof {
            reveal_strlit("true");
            reveal_strlit("false");
        }
        Ok(Some(false))
    } else {
        Err(
            ConfigError::Invalid {
                name: name.to_owned(),
                value: or(value.clone(), ""),
                reason: "provided string was not `true` or `false`".to_owned(),
            },
        )
    }
}

/// The address in an optional variable, as text.
pub fn optional_address(name: &str, address: Option<AddressVar>) -> (r: Result<
    Option<String>,
    ConfigError,
>)
    ensures
        match r {
            Ok(text) => address_in(name@, address) == Ok::<Option<Seq<char>>, ConfigErrorView>(
                opt_text(text),
            ),
            Err(e) => address_in(name@, address) == Err::<Option<Seq<char>>, ConfigErrorView>(e@),
        },
{
    let address = match address {
        Some(address) => address,
        None => return Ok(None),
    };
    let text = trim(address.value.as_str());
    if text.is_empty() {
        return Ok(None);
    }
    match address.issue {
        Some(reason) => Err(
            ConfigError::Invalid { name: name.to_owned(), value: address.value, reason },
        ),
        None => Ok(Some(text.to_owned())),
    }
}

// ---- all of them

/// What is true of every configuration: the port range, where there is one, has a port for every
/// call, and the token is no empty one.
pub open spec fn config_ok(c: ConfigView) -> bool {
    &&& c.rtc_ports matches Some(range) ==> range.wf() && c.max_calls <= range.count()
    &&& c.access_token matches Some(token) ==> token.len() > 0
}

/// The port range that the environment asks for.
pub open spec fn ports_in(vars: Vars) -> Result<Option<PortRange>, ConfigErrorView> {
    match number_in("RTC_PORT_MIN"@, opt_text(vars.rtc_port_min), u16::MAX as nat) {
        Err(e) => Err(e),
        Ok(min) => match number_in("RTC_PORT_MAX"@, opt_text(vars.rtc_port_max), u16::MAX as nat) {
            Err(e) => Err(e),
            Ok(max) => match (min, max) {
                (None, None) => Ok(None),
                (Some(lo), Some(hi)) => if lo <= hi {
                    Ok(Some(PortRange { min: lo as u16, max: hi as u16 }))
                } else {
                    Err(ConfigErrorView::PortsUnpaired)
                },
                _ => Err(ConfigErrorView::PortsUnpaired),
            },
        },
    }
}

/// The port range and the limit on calls, which it has to cover.
pub open spec fn capacity_in(vars: Vars) -> Result<(Option<PortRange>, nat), ConfigErrorView> {
    match ports_in(vars) {
        Err(e) => Err(e),
        Ok(ports) => match number_in(
            "MAX_CALLS"@,
            opt_text(vars.max_calls),
            usize::MAX as nat,
        ) {
            Err(e) => Err(e),
            Ok(n) => {
                let max_calls: nat = match n {
                    Some(n) => n,
                    None => 10,
                };
                match ports {
                    Some(range) => if range.count() < max_calls {
                        Err(ConfigErrorView::TooFewPorts { ports: range.count(), max_calls })
                    } else {
                        Ok((ports, max_calls))
                    },
                    None => Ok((ports, max_calls)),
                }
            },
        },
    }
}

/// The keys of the three services, in the order they are looked for.
pub open spec fn keys_in(vars: Vars) -> Result<(Seq<char>, Seq<char>, Seq<char>), ConfigErrorView> {
    match (
        opt_text(vars.deepgram_api_key),
        opt_text(vars.openai_api_key),
        opt_text(vars.murf_api_key),
    ) {
        (Some(deepgram), Some(openai), Some(murf)) => Ok((deepgram, openai, murf)),
        (None, _, _) => Err(ConfigErrorView::Missing { name: "DEEPGRAM_API_KEY"@ }),
        (_, None, _) => Err(ConfigErrorView::Missing { name: "OPENAI_API_KEY"@ }),
        (_, _, None) => Err(ConfigErrorView::Missing { name: "MURF_API_KEY"@ }),
    }
}

/// The two addresses, in the order they are looked at.
pub open spec fn addresses_in(vars: Vars) -> Result<
    (Option<Seq<char>>, Option<Seq<char>>),
    ConfigErrorView,
> {
    match address_in("RTC_BIND_IP"@, vars.rtc_bind_ip) {
        Err(e) => Err(e),
        Ok(rtc_bind_ip) => match address_in("PUBLIC_IP"@, vars.public_ip) {
            Err(e) => Err(e),
            Ok(public_ip) => Ok((rtc_bind_ip, public_ip)),
        },
    }
}

/// The configuration that the environment describes, or the first thing that is wrong with it.
pub open spec fn config_in(vars: Vars) -> Result<ConfigView, ConfigErrorView> {
    match capacity_in(vars) {
        Err(e) => Err(e),
        Ok((rtc_ports, max_calls)) => match keys_in(vars) {
            Err(e) => Err(e),
            Ok((deepgram_key, openai_key, murf_key)) => match flag_in(
                "ALLOW_BASE_URL_OVERRIDE"@,
                opt_text(vars.allow_base_url_override),
            ) {
                Err(e) => Err(e),
                Ok(allow) => match number_in(
                    "MAX_CALL_SECS"@,
                    opt_text(vars.max_call_secs),
                    u64::MAX as nat,
                ) {
                    Err(e) => Err(e),
                    Ok(secs) => match addresses_in(vars) {
                        Err(e) => Err(e),
                        Ok((rtc_bind_ip, public_ip)) => Ok(
                            ConfigView {
                                deepgram_key,
                                deepgram_url: or_text(
                                    opt_text(vars.deepgram_url),
                                    crate::stt::DEFAULT_URL@,
                                ),
                                openai_key,
                                openai_base_url: or_text(
                                    opt_text(vars.openai_base_url),
                                    crate::llm::DEFAULT_BASE_URL@,
                                ),
                                openai_model: or_text(opt_text(vars.openai_model), DEFAULT_MODEL@),
                                murf_key,
                                murf_url: or_text(opt_text(vars.murf_url), crate::tts::DEFAULT_URL@),
                                murf_voice: or_text(
                                    opt_text(vars.murf_voice),
                                    crate::tts::DEFAULT_VOICE@,
                                ),
                                system_prompt: or_text(
                                    opt_text(vars.system_prompt),
                                    crate::llm::SYSTEM_PROMPT@,
                                ),
                                stt_language: or_text(
                                    opt_text(vars.stt_language),
                                    crate::stt::DEFAULT_LANGUAGE@,
                                ),
                                addr: or_text(opt_text(vars.addr), DEFAULT_ADDR@),
                                access_token: match opt_text(vars.access_token) {
                                    Some(token) => if token.len() == 0 {
                                        None
                                    } else {
                                        Some(token)
                                    },
                                    None => None,
                                },
                                allow_base_url_override: allow == Some(true),
                                max_calls,
                                max_call_secs: match secs {
                                    Some(n) => n,
                                    None => 1800,
                                },
                                rtc_bind_ip,
                                public_ip,
                                rtc_ports,
                            },
                        ),
                    },
                },
            },
        },
    }
}

fn ports(vars: &Vars) -> (r: Result<Option<PortRange>, ConfigError>)
    ensures
        match r {
            Ok(p) => ports_in(*vars) == Ok::<Option<PortRange>, ConfigErrorView>(p),
            Err(e) => ports_in(*vars) == Err::<Option<PortRange>, ConfigErrorView>(e@),
        },
        r matches Ok(Some(range)) ==> range.wf(),
{
    let min = match optional_number("RTC_PORT_MIN", &vars.rtc_port_min, u16::MAX as u64) {
        Ok(min) => min,
        Err(e) => return Err(e),
    };
    let max = match optional_number("RTC_PORT_MAX", &vars.rtc_port_max, u16::MAX as u64) {
        Ok(max) => max,
        Err(e) => return Err(e),
    };
    match (min, max) {
        (Some(lo), Some(hi)) => if lo <= hi {
            Ok(Some(PortRange { min: lo as u16, max: hi as u16 }))
        } else {
            Err(ConfigError::PortsUnpaired)
        },
        (None, None) => Ok(None),
        _ => Err(ConfigError::PortsUnpaired),
    }
}

fn capacity(vars: &Vars) -> (r: Result<(Option<PortRange>, usize), ConfigError>)
    ensures
        match r {
            Ok((p, n)) => capacity_in(*vars) == Ok::<(Option<PortRange>, nat), ConfigErrorView>(
                (p, n as nat),
            ),
            Err(e) => capacity_in(*vars) == Err::<(Option<PortRange>, nat), ConfigErrorView>(e@),
        },
        r matches Ok((Some(range), n)) ==> range.wf() && n <= range.count(),
{
    let ports = match ports(vars) {
        Ok(ports) => ports,
        Err(e) => return Err(e),
    };
    let max_calls: usize = match optional_number("MAX_CALLS", &vars.max_calls, usize::MAX as u64) {
        Ok(Some(n)) => n as usize,
        Ok(None) => 10,
        Err(e) => return Err(e),
    };
    if let Some(range) = ports {
        if range.len() < max_calls {
            return Err(ConfigError::TooFewPorts { ports: range.len(), max_calls });
        }
    }
    Ok((ports, max_calls))
}

impl Config {
    /// The port range, where there is one, has a port for every call, and the token is no empty
    /// one.
    pub open spec fn wf(&self) -> bool {
        config_ok(self@)
    }

    /// Works out the configuration from the environment.
    pub fn from_env(vars: Vars) -> (r: Result<Config, ConfigError>)
        ensures
            match r {
                Ok(config) => config.wf() && config_in(vars) == Ok::<ConfigView, ConfigErrorView>(
                    config@,
                ),
                Err(e) => config_in(vars) == Err::<ConfigView, ConfigErrorView>(e@),
            },
    {
        let (rtc_ports, max_calls) = match capacity(&vars) {
            Ok(capacity) => capacity,
            Err(e) => return Err(e),
        };
        let deepgram_key = match var("DEEPGRAM_API_KEY", vars.deepgram_api_key) {
            Ok(key) => key,
            Err(e) => return Err(e),
        };
        let openai_key = match var("OPENAI_API_KEY", vars.openai_api_key) {
            Ok(key) => key,
            Err(e) => return Err(e),
        };
        let murf_key = match var("MURF_API_KEY", vars.murf_api_key) {
            Ok(key) => key,
            Err(e) => return Err(e),
        };
        let access_token = match vars.access_token {
            Some(token) => if token.as_str().is_empty() {
                None
            } else {
                Some(token)
            },
            None => None,
        };
        let allow_base_url_override = match optional_flag(
            "ALLOW_BASE_URL_OVERRIDE",
            &vars.allow_base_url_override,
        ) {
            Ok(Some(allow)) => allow,
            Ok(None) => false,
            Err(e) => return Err(e),
        };
        let max_call_secs: u64 = match optional_number(
            "MAX_CALL_SECS",
            &vars.max_call_secs,
            u64::MAX,
        ) {
            Ok(Some(n)) => n,
            Ok(None) => 1800,
            Err(e) => return Err(e),
        };
        let rtc_bind_ip = match optional_address("RTC_BIND_IP", vars.rtc_bind_ip) {
            Ok(address) => address,
            Err(e) => return Err(e),
        };
        let public_ip = match optional_address("PUBLIC_IP", vars.public_ip) {
            Ok(address) => address,
            Err(e) => return Err(e),
        };
        Ok(
            Config {
                deepgram_key,
                deepgram_url: or(vars.deepgram_url, crate::stt::DEFAULT_URL),
                openai_key,
                openai_base_url: or(vars.openai_base_url, crate::llm::DEFAULT_BASE_URL),
                openai_model: or(vars.openai_model, DEFAULT_MODEL),
                murf_key,
                murf_url: or(vars.murf_url, crate::tts::DEFAULT_URL),
                murf_voice: or(vars.murf_voice, crate::tts::DEFAULT_VOICE),
                system_prompt: or(vars.system_prompt, crate::llm::SYSTEM_PROMPT),
                stt_language: or(vars.stt_language, crate::stt::DEFAULT_LANGUAGE),
                addr: or(vars.addr, DEFAULT_ADDR),
                access_token,
                allow_base_url_override,
                max_calls,
                max_call_secs,
                rtc_bind_ip,
                public_ip,
                rtc_ports,
            },
        )
    }
}

/// An environment is accepted only where every number, switch and address in it that is not blank
/// can be made sense of: none is silently ignored. What comes of it has a port for every call.
pub proof fn law_no_value_is_silently_ignored(vars: Vars)
    requires
        config_in(vars) is Ok,
    ensures
        number_in("RTC_PORT_MIN"@, opt_text(vars.rtc_port_min), u16::MAX as nat) is Ok,
        number_in("RTC_PORT_MAX"@, opt_text(vars.rtc_port_max), u16::MAX as nat) is Ok,
        number_in("MAX_CALLS"@, opt_text(vars.max_calls), usize::MAX as nat) is Ok,
        number_in("MAX_CALL_SECS"@, opt_text(vars.max_call_secs), u64::MAX as nat) is Ok,
        flag_in("ALLOW_BASE_URL_OVERRIDE"@, opt_text(vars.allow_base_url_override)) is Ok,
        given(address_text(vars.rtc_bind_ip)) is Some ==> vars.rtc_bind_ip->0.issue is None
            && config_in(vars)->Ok_0.rtc_bind_ip == given(address_text(vars.rtc_bind_ip)),
        given(address_text(vars.public_ip)) is Some ==> vars.public_ip->0.issue is None
            && config_in(vars)->Ok_0.public_ip == given(address_text(vars.public_ip)),
        given(opt_text(vars.rtc_port_min)) is Some <==> config_in(vars)->Ok_0.rtc_ports is Some,
        given(opt_text(vars.rtc_port_max)) is Some <==> config_in(vars)->Ok_0.rtc_ports is Some,
        config_ok(config_in(vars)->Ok_0),
{
    lemma_numbers_fit(opt_text(vars.rtc_port_min), u16::MAX as nat);
    lemma_numbers_fit(opt_text(vars.rtc_port_max), u16::MAX as nat);
}

/// A number that is read from a variable is within its limit.
proof fn lemma_numbers_fit(value: Option<Seq<char>>, max: nat)
    ensures
        given(value) matches Some(text) ==> (number_of(text, max) matches Ok(n) ==> n <= max),
{
}

// ---- what holds of every environment

/// What a variable is set to, without the white space around it. One that is not set, or blank, is
/// set to nothing.
pub open spec fn set_to(value: Option<String>) -> Option<Seq<char>> {
    if value is None || all_white(value->0@) {
        None
    } else {
        Some(trimmed(value->0@))
    }
}

/// The number that a variable is set to.
pub open spec fn number_set(value: Option<String>, max: nat) -> Result<Option<nat>, NumberIssue> {
    match set_to(value) {
        None => Ok(None),
        Some(text) => match number_of(text, max) {
            Ok(n) => Ok(Some(n)),
            Err(issue) => Err(issue),
        },
    }
}

/// Whether an error says that this variable, as it was set, is no number, and why.
pub open spec fn is_no_number(
    e: ConfigError,
    name: Seq<char>,
    value: Option<String>,
    issue: NumberIssue,
) -> bool {
    e matches ConfigError::Invalid { name: n, value: v, reason } && n@ == name && v@ == value->0@
        && reason@ == match issue {
        NumberIssue::Empty => "cannot parse integer from empty string"@,
        NumberIssue::InvalidDigit => "invalid digit found in string"@,
        NumberIssue::TooLarge => "number too large to fit in target type"@,
    }
}

/// Whether an address variable is set to something that is no address.
pub open spec fn is_no_address(address: Option<AddressVar>) -> bool {
    address matches Some(a) && !all_white(a.value@) && a.issue is Some
}

/// What an address variable is set to.
pub open spec fn address_set(address: Option<AddressVar>) -> Option<Seq<char>> {
    match address {
        Some(a) => set_to(Some(a.value)),
        None => None,
    }
}

/// The calls that a server takes unless told otherwise.
pub open spec fn calls_set(vars: Vars) -> nat {
    match number_set(vars.max_calls, usize::MAX as nat) {
        Ok(Some(n)) => n,
        _ => 10,
    }
}

/// What is wrong with an environment, in the order in which it is looked at: the two ends of the
/// port range and then the range itself, the number of calls and then whether the range covers
/// them, the three keys, the switch, the length of a call, and the two addresses.
pub open spec fn is_first_fault(vars: Vars, e: ConfigError) -> bool {
    let lo = number_set(vars.rtc_port_min, 65_535);
    let hi = number_set(vars.rtc_port_max, 65_535);
    let calls = number_set(vars.max_calls, usize::MAX as nat);
    let allow = set_to(vars.allow_base_url_override);
    let secs = number_set(vars.max_call_secs, u64::MAX as nat);
    if lo is Err {
        is_no_number(e, "RTC_PORT_MIN"@, vars.rtc_port_min, lo->Err_0)
    } else if hi is Err {
        is_no_number(e, "RTC_PORT_MAX"@, vars.rtc_port_max, hi->Err_0)
    } else if unpaired(lo->Ok_0, hi->Ok_0) {
        e is PortsUnpaired
    } else if calls is Err {
        is_no_number(e, "MAX_CALLS"@, vars.max_calls, calls->Err_0)
    } else if lo->Ok_0 is Some && hi->Ok_0->0 - lo->Ok_0->0 + 1 < calls_set(vars) {
        e matches ConfigError::TooFewPorts { ports, max_calls } && ports == hi->Ok_0->0
            - lo->Ok_0->0 + 1 && max_calls == calls_set(vars)
    } else if vars.deepgram_api_key is None {
        e matches ConfigError::Missing { name } && name@ == "DEEPGRAM_API_KEY"@
    } else if vars.openai_api_key is None {
        e matches ConfigError::Missing { name } && name@ == "OPENAI_API_KEY"@
    } else if vars.murf_api_key is None {
        e matches ConfigError::Missing { name } && name@ == "MURF_API_KEY"@
    } else if allow is Some && allow->0 != "true"@ && allow->0 != "false"@ {
        e matches ConfigError::Invalid { name, value, reason } && name@
            == "ALLOW_BASE_URL_OVERRIDE"@ && value@ == vars.allow_base_url_override->0@ && reason@
            == "provided string was not `true` or `false`"@
    } else if secs is Err {
        is_no_number(e, "MAX_CALL_SECS"@, vars.max_call_secs, secs->Err_0)
    } else if is_no_address(vars.rtc_bind_ip) {
        e matches ConfigError::Invalid { name, value, reason } && name@ == "RTC_BIND_IP"@ && value@
            == vars.rtc_bind_ip->0.value@ && reason@ == vars.rtc_bind_ip->0.issue->0@
    } else {
        is_no_address(vars.public_ip) && (e matches ConfigError::Invalid { name, value, reason }
            && name@ == "PUBLIC_IP"@ && value@ == vars.public_ip->0.value@ && reason@
            == vars.public_ip->0.issue->0@)
    }
}

/// Whether only one end of a port range is set, or the ends are the wrong way round.
pub open spec fn unpaired(lo: Option<nat>, hi: Option<nat>) -> bool {
    ||| lo is Some != hi is Some
    ||| lo is Some && lo->0 > hi->0
}

/// Whether nothing is wrong with an environment.
pub open spec fn is_sound(vars: Vars) -> bool {
    let lo = number_set(vars.rtc_port_min, 65_535);
    let hi = number_set(vars.rtc_port_max, 65_535);
    let allow = set_to(vars.allow_base_url_override);
    &&& lo is Ok
    &&& hi is Ok
    &&& !unpaired(lo->Ok_0, hi->Ok_0)
    &&& number_set(vars.max_calls, usize::MAX as nat) is Ok
    &&& lo->Ok_0 is Some ==> hi->Ok_0->0 - lo->Ok_0->0 + 1 >= calls_set(vars)
    &&& vars.deepgram_api_key is Some
    &&& vars.openai_api_key is Some
    &&& vars.murf_api_key is Some
    &&& allow is Some ==> allow->0 == "true"@ || allow->0 == "false"@
    &&& number_set(vars.max_call_secs, u64::MAX as nat) is Ok
    &&& !is_no_address(vars.rtc_bind_ip)
    &&& !is_no_address(vars.public_ip)
}

/// Whether a setting is what its variable says, or the default where that is not set.
pub open spec fn is_or(setting: String, value: Option<String>, default: Seq<char>) -> bool {
    setting@ == match value {
        Some(v) => v@,
        None => default,
    }
}

proof fn lemma_set_to(value: Option<String>)
    ensures
        given(opt_text(value)) == set_to(value),
{
    if let Some(v) = value {
        let _ = lemma_trimmed_bounds(v@);
    }
}

proof fn lemma_address_set(address: Option<AddressVar>)
    ensures
        given(address_text(address)) == address_set(address),
{
    if let Some(a) = address {
        lemma_set_to(Some(a.value));
    }
}

/// An environment is turned into a configuration exactly where nothing is wrong with it, and the
/// configuration is what it says: each text as it is set or by default, each number and switch as
/// it reads, and a token only where it is not empty.
pub proof fn law_a_server_is_configured_as_its_environment_says(
    vars: Vars,
    r: Result<Config, ConfigError>,
)
    requires
        call_ensures(Config::from_env, (vars,), r),
    ensures
        r is Ok <==> is_sound(vars),
        r matches Err(e) ==> is_first_fault(vars, e),
        r matches Ok(c) ==> {
            &&& c.deepgram_key@ == vars.deepgram_api_key->0@
            &&& c.openai_key@ == vars.openai_api_key->0@
            &&& c.murf_key@ == vars.murf_api_key->0@
            &&& is_or(c.deepgram_url, vars.deepgram_url, "wss://api.deepgram.com/v1/listen"@)
            &&& is_or(c.openai_base_url, vars.openai_base_url, "https://api.groq.com/openai/v1"@)
            &&& is_or(c.openai_model, vars.openai_model, "gpt-5.2-mini"@)
            &&& is_or(
                c.murf_url,
                vars.murf_url,
                "wss://global.api.murf.ai/v1/speech/stream-input"@,
            )
            &&& is_or(c.murf_voice, vars.murf_voice, "en-US-natalie"@)
            &&& is_or(c.system_prompt, vars.system_prompt, crate::llm::SYSTEM_PROMPT@)
            &&& is_or(c.stt_language, vars.stt_language, "en"@)
            &&& is_or(c.addr, vars.addr, "127.0.0.1:8080"@)
            &&& c.access_token is Some <==> vars.access_token is Some && vars.access_token->0@.len()
                > 0
            &&& c.access_token matches Some(token) ==> token@ == vars.access_token->0@
            &&& c.allow_base_url_override <==> set_to(vars.allow_base_url_override) == Some("true"@)
            &&& c.max_calls == calls_set(vars)
            &&& c.max_call_secs == match number_set(vars.max_call_secs, u64::MAX as nat)->Ok_0 {
                Some(n) => n,
                None => 1800,
            }
            &&& opt_text(c.rtc_bind_ip) == address_set(vars.rtc_bind_ip)
            &&& opt_text(c.public_ip) == address_set(vars.public_ip)
            &&& match number_set(vars.rtc_port_min, 65_535)->Ok_0 {
                Some(lo) => c.rtc_ports is Some && c.rtc_ports->0.min == lo && c.rtc_ports->0.max
                    == number_set(vars.rtc_port_max, 65_535)->Ok_0->0,
                None => c.rtc_ports is None,
            }
        },
{
    lemma_set_to(vars.rtc_port_min);
    lemma_set_to(vars.rtc_port_max);
    lemma_set_to(vars.max_calls);
    lemma_set_to(vars.max_call_secs);
    lemma_set_to(vars.allow_base_url_override);
    lemma_address_set(vars.rtc_bind_ip);
    lemma_address_set(vars.public_ip);
    reveal_strlit("true");
    reveal_strlit("false");
    assert("true"@.len() != "false"@.len());
}

/// What is said of an environment that is turned down names what is wrong with it.
pub proof fn law_errors_say_what_is_wrong(e: ConfigError, quoted: &str, m: String)
    requires
        call_ensures(ConfigError::message, (&e, quoted), m),
    ensures
        m@ == match e {
            ConfigError::Missing { name } => name@ + " is not set (put it in .env)"@,
            ConfigError::Invalid { name, reason, .. } => name@ + "="@ + quoted@ + " is invalid: "@
                + reason@,
            ConfigError::PortsUnpaired =>
                "RTC_PORT_MIN and RTC_PORT_MAX must both be set, with MIN <= MAX"@,
            ConfigError::TooFewPorts { ports, max_calls } => "RTC_PORT_MIN..RTC_PORT_MAX has "@
                + decimal_text(ports as nat) + " ports but MAX_CALLS is "@ + decimal_text(
                max_calls as nat,
            ) + ": each call needs its own"@,
        },
{
}

/// A range holds its two ends and all between them.
pub proof fn law_a_range_holds_both_ends(range: PortRange, n: usize)
    requires
        range.min <= range.max,
        call_ensures(PortRange::len, (range,), n),
    ensures
        range.min + n == range.max + 1,
{
}

} // verus!
