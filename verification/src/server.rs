//! The HTTP side: who may start a call, what is refused and how, and what the page is told.

use vstd::prelude::*;
use vstd::string::*;
use vstd::utf8::encode_utf8_decode_utf8;

use crate::config::{config_ok, Config, ConfigView};
use crate::session::{settings_issue, CallSettings, SettingsView};
use crate::text::{decimal, decimal_text, starts_with, strip_prefix, texts};

verus! {

/// A request that is turned down: an HTTP status, and what the caller is told.
#[derive(Debug)]
pub struct Refusal {
    pub status: u16,
    pub message: String,
}

/// A refusal, with its message as characters.
pub struct RefusalView {
    pub status: u16,
    pub message: Seq<char>,
}

impl View for Refusal {
    type V = RefusalView;

    open spec fn view(&self) -> RefusalView {
        RefusalView { status: self.status, message: self.message@ }
    }
}

impl Refusal {
    /// All slots for calls are taken.
    pub fn busy() -> (r: Self)
        ensures
            r@ == (RefusalView {
                status: 503,
                message: "The agent is busy with other calls. Try again shortly."@,
            }),
    {
        Refusal {
            status: 503,
            message: "The agent is busy with other calls. Try again shortly.".to_owned(),
        }
    }

    /// The call could not be set up.
    pub fn failed() -> (r: Self)
        ensures
            r@ == (RefusalView { status: 500, message: "Could not start the call."@ }),
    {
        Refusal { status: 500, message: "Could not start the call.".to_owned() }
    }
}

// ---- who may start a call

proof fn lemma_no_difference_so_far(diff: u8, x: u8, y: u8)
    ensures
        (diff | (x ^ y)) == 0 <==> diff == 0 && x == y,
{
    assert((diff | (x ^ y)) == 0 <==> diff == 0 && x == y) by (bit_vector);
}

/// Compares without an early exit, so response timing does not reveal how much of a guessed
/// token was right.
pub fn constant_time_eq(a: &[u8], b: &[u8]) -> (r: bool)
    ensures
        r == (a@ == b@),
{
    if a.len() != b.len() {
        return false;
    }
    let mut diff: u8 = 0;
    let mut i: usize = 0;
    while i < a.len()
        invariant
            i <= a@.len() == b@.len(),
            diff == 0 <==> (forall|k: int| 0 <= k < i ==> a@[k] == b@[k]),
        decreases a@.len() - i,
    {
        proof {
            lemma_no_difference_so_far(diff, a@[i as int], b@[i as int]);
        }
        diff = diff | (a[i] ^ b[i]);
        i = i + 1;
    }
    assert(diff == 0 ==> a@ =~= b@);
    diff == 0
}

/// The token in an `Authorization` header, or nothing where there is none.
pub open spec fn bearer_token(header: Option<Seq<char>>) -> Seq<char> {
    match header {
        Some(value) => if "Bearer "@.is_prefix_of(value) {
            value.skip("Bearer "@.len() as int)
        } else {
            seq![]
        },
        None => seq![],
    }
}

/// The view of an optional text.
pub open spec fn opt_str(o: Option<&str>) -> Option<Seq<char>> {
    match o {
        Some(s) => Some(s@),
        None => None,
    }
}

/// Whether a request may start a call: always where no token is configured, and otherwise only
/// with that token.
pub open spec fn authorized(expected: Option<Seq<char>>, header: Option<Seq<char>>) -> bool {
    expected matches Some(token) ==> bearer_token(header) == token
}

/// The answer to a request without the token.
pub open spec fn unauthorized() -> RefusalView {
    RefusalView { status: 401, message: "A valid access token is required."@ }
}

/// Checks `Authorization: Bearer <ACCESS_TOKEN>` when a token is configured. `header` is the
/// header's value, where it has one that is text.
pub fn authorize(config: &Config, header: Option<&str>) -> (r: Result<(), Refusal>)
    ensures
        match r {
            Ok(_) => authorized(config@.access_token, opt_str(header)),
            Err(e) => !authorized(config@.access_token, opt_str(header)) && e@ == unauthorized(),
        },
{
    let expected = match &config.access_token {
        Some(expected) => expected,
        None => return Ok(()),
    };
    let given = match header {
        Some(value) => match strip_prefix(value, "Bearer ") {
            Some(token) => token,
            None => {
                proof {
                    reveal_strlit("");
                }
                assert(""@ =~= seq![]);
                ""
            },
        },
        None => {
            proof {
                reveal_strlit("");
            }
            assert(""@ =~= seq![]);
            ""
        },
    };
    proof {
        encode_utf8_decode_utf8(given@);
        encode_utf8_decode_utf8(expected@);
    }
    if constant_time_eq(given.as_bytes(), expected.as_str().as_bytes()) {
        Ok(())
    } else {
        Err(Refusal { status: 401, message: "A valid access token is required.".to_owned() })
    }
}

/// Why an offer is turned down before a slot is looked for, if it is: the token comes first, then
/// the settings.
pub open spec fn offer_issue(
    c: ConfigView,
    header: Option<Seq<char>>,
    s: SettingsView,
) -> Option<RefusalView> {
    if !authorized(c.access_token, header) {
        Some(unauthorized())
    } else {
        match settings_issue(s, c.allow_base_url_override) {
            Some(message) => Some(RefusalView { status: 400, message }),
            None => None,
        }
    }
}

/// Checks an offer before a slot is looked for.
pub fn check_offer(config: &Config, header: Option<&str>, settings: &CallSettings) -> (r: Result<
    (),
    Refusal,
>)
    ensures
        match r {
            Ok(_) => offer_issue(config@, opt_str(header), settings@) is None,
            Err(e) => offer_issue(config@, opt_str(header), settings@) == Some(e@),
        },
{
    if let Err(refusal) = authorize(config, header) {
        return Err(refusal);
    }
    match settings.validate(config.allow_base_url_override) {
        Ok(_) => Ok(()),
        Err(message) => Err(Refusal { status: 400, message }),
    }
}

/// An offer without the configured token learns nothing but that a token is required: what it
/// asks for makes no difference.
pub proof fn law_strangers_learn_nothing(
    c: ConfigView,
    header: Option<Seq<char>>,
    s: SettingsView,
)
    requires
        c.access_token is Some,
        bearer_token(header) != c.access_token->0,
    ensures
        offer_issue(c, header, s) == Some(unauthorized()),
{
}

/// The configured token opens the door, and nothing else does: no header, no other scheme, no
/// other token.
pub proof fn law_only_the_token_opens_the_door(c: ConfigView, given: Seq<char>)
    requires
        config_ok(c),
        c.access_token is Some,
    ensures
        authorized(c.access_token, Some("Bearer "@ + given)) <==> given == c.access_token->0,
        !authorized(c.access_token, None),
        !"Bearer "@.is_prefix_of(given) ==> !authorized(c.access_token, Some(given)),
{
    let value = "Bearer "@ + given;
    assert(value.take("Bearer "@.len() as int) =~= "Bearer "@);
    assert(value.skip("Bearer "@.len() as int) =~= given);
}

// ---- what the page is told

/// What the page needs to render its controls. Holds no secrets.
#[derive(Debug)]
pub struct ClientConfig {
    pub access_token_required: bool,
    pub allow_base_url_override: bool,
    pub max_call_secs: u64,
    pub default_model: String,
    pub default_voice: String,
    pub default_language: String,
    pub default_system_prompt: String,
}

/// What the page is told, with its texts as characters.
pub struct ClientView {
    pub access_token_required: bool,
    pub allow_base_url_override: bool,
    pub max_call_secs: nat,
    pub default_model: Seq<char>,
    pub default_voice: Seq<char>,
    pub default_language: Seq<char>,
    pub default_system_prompt: Seq<char>,
}

impl View for ClientConfig {
    type V = ClientView;

    open spec fn view(&self) -> ClientView {
        ClientView {
            access_token_required: self.access_token_required,
            allow_base_url_override: self.allow_base_url_override,
            max_call_secs: self.max_call_secs as nat,
            default_model: self.default_model@,
            default_voice: self.default_voice@,
            default_language: self.default_language@,
            default_system_prompt: self.default_system_prompt@,
        }
    }
}

/// What the page is told of a configuration.
pub open spec fn client_view(c: ConfigView) -> ClientView {
    ClientView {
        access_token_required: c.access_token is Some,
        allow_base_url_override: c.allow_base_url_override,
        max_call_secs: c.max_call_secs,
        default_model: c.openai_model,
        default_voice: c.murf_voice,
        default_language: c.stt_language,
        default_system_prompt: c.system_prompt,
    }
}

/// What the page needs to render its controls.
pub fn client_config(config: &Config) -> (r: ClientConfig)
    ensures
        r@ == client_view(config@),
{
    ClientConfig {
        access_token_required: config.access_token.is_some(),
        allow_base_url_override: config.allow_base_url_override,
        max_call_secs: config.max_call_secs,
        default_model: config.openai_model.clone(),
        default_voice: config.murf_voice.clone(),
        default_language: config.stt_language.clone(),
        default_system_prompt: config.system_prompt.clone(),
    }
}

/// Whatever the keys and the access token are, the page is told the same.
pub proof fn law_the_page_learns_no_secrets(
    c: ConfigView,
    deepgram_key: Seq<char>,
    openai_key: Seq<char>,
    murf_key: Seq<char>,
    token: Seq<char>,
)
    ensures
        client_view(ConfigView { deepgram_key, openai_key, murf_key, ..c }) == client_view(c),
        c.access_token is Some ==> client_view(ConfigView { access_token: Some(token), ..c })
            == client_view(c),
{
}

// ---- what the operator is told

/// What the operator is told when the server starts.
pub open spec fn listening_text(c: ConfigView) -> Seq<char> {
    "sol-li-ni listening on http://"@ + c.addr + " (max "@ + decimal_text(c.max_calls)
        + " calls, "@ + decimal_text(c.max_call_secs) + " s each"@ + (if c.access_token is Some {
        ", access token required"@
    } else {
        seq![]
    }) + ")"@
}

/// What the operator is told when the server starts.
pub fn listening_line(config: &Config) -> (r: String)
    ensures
        r@ == listening_text(config@),
{
    let mut r = "sol-li-ni listening on http://".to_owned();
    r.append(config.addr.as_str());
    r.append(" (max ");
    r.append(decimal(config.max_calls as u128).as_str());
    r.append(" calls, ");
    r.append(decimal(config.max_call_secs as u128).as_str());
    r.append(" s each");
    if config.access_token.is_some() {
        r.append(", access token required");
    }
    r.append(")");
    assert(r@ =~= listening_text(config@));
    r
}

/// Whether anyone who can reach the server can start calls on its API keys.
pub open spec fn open_to_all(c: ConfigView) -> bool {
    c.access_token is None && !"127."@.is_prefix_of(c.addr)
}

/// What the operator is warned of when the server starts.
pub open spec fn warnings_for(c: ConfigView) -> Seq<Seq<char>> {
    (if open_to_all(c) {
        seq![
            "no ACCESS_TOKEN set while listening beyond localhost: anyone who can reach this server can start calls on your API keys"@,
        ]
    } else {
        seq![]
    }) + (if c.allow_base_url_override {
        seq![
            "ALLOW_BASE_URL_OVERRIDE is on: callers can send OPENAI_API_KEY to any endpoint"@,
        ]
    } else {
        seq![]
    })
}

/// What the operator is warned of when the server starts.
pub fn startup_warnings(config: &Config) -> (r: Vec<String>)
    ensures
        texts(r@) == warnings_for(config@),
{
    let mut r: Vec<String> = Vec::new();
    if config.access_token.is_none() && !starts_with(config.addr.as_str(), "127.") {
        r.push(
            "no ACCESS_TOKEN set while listening beyond localhost: anyone who can reach this server can start calls on your API keys".to_owned(),
        );
    }
    if config.allow_base_url_override {
        r.push(
            "ALLOW_BASE_URL_OVERRIDE is on: callers can send OPENAI_API_KEY to any endpoint".to_owned(),
        );
    }
    assert(texts(r@) =~= warnings_for(config@));
    r
}

// ---- what holds of every request

/// Two tokens are the same exactly where all their bytes are.
pub proof fn law_tokens_are_compared_whole(a: &[u8], b: &[u8], r: bool)
    requires
        call_ensures(constant_time_eq, (a, b), r),
    ensures
        r <==> a@.len() == b@.len() && (forall|i: int|
            0 <= i < a@.len() ==> #[trigger] a@[i] == b@[i]),
{
    if a@.len() == b@.len() && (forall|i: int| 0 <= i < a@.len() ==> #[trigger] a@[i] == b@[i]) {
        assert(a@ =~= b@);
    }
}

/// A server without a token lets everyone in. One with a token lets in who shows it, after
/// `Bearer ` and exactly as it is, and turns everyone else away in the same words.
pub proof fn law_who_is_let_in(config: Config, header: Option<&str>, r: Result<(), Refusal>)
    requires
        config.wf(),
        call_ensures(authorize, (&config, header), r),
    ensures
        config.access_token is None ==> r is Ok,
        config.access_token matches Some(token) ==> (r is Ok <==> header is Some && header->0@
            == "Bearer "@ + token@),
        r matches Err(refusal) ==> refusal.status == 401 && refusal.message@
            == "A valid access token is required."@,
{
    if let Some(token) = config.access_token {
        if let Some(value) = header {
            let prefix = "Bearer "@;
            if prefix.is_prefix_of(value@) {
                let n = prefix.len() as int;
                assert(value@ =~= value@.take(n) + value@.skip(n));
                if value@ == prefix + token@ {
                    assert(value@.skip(n) =~= token@);
                }
            } else if value@ == prefix + token@ {
                assert(value@.take(prefix.len() as int) =~= prefix);
            }
        }
    }
}

/// An offer is let through exactly where its sender is let in and its settings hold up. Who is not
/// let in hears of that and nothing else; what is wrong with settings comes back as it is.
pub proof fn law_what_an_offer_is_checked_for(
    config: Config,
    header: Option<&str>,
    settings: CallSettings,
    let_in: Result<(), Refusal>,
    valid: Result<(), String>,
    r: Result<(), Refusal>,
)
    requires
        call_ensures(check_offer, (&config, header, &settings), r),
        call_ensures(authorize, (&config, header), let_in),
        call_ensures(
            CallSettings::validate,
            (&settings, config.allow_base_url_override),
            valid,
        ),
    ensures
        r is Ok <==> let_in is Ok && valid is Ok,
        let_in matches Err(refusal) ==> r is Err && r->Err_0.status == refusal.status
            && r->Err_0.message@ == refusal.message@,
        let_in is Ok && valid is Err ==> r is Err && r->Err_0.status == 400 && r->Err_0.message@
            == valid->Err_0@,
{
}

/// The page is told what its controls need, one by one and as the server is configured.
pub proof fn law_the_page_is_told_its_defaults(config: Config, r: ClientConfig)
    requires
        call_ensures(client_config, (&config,), r),
    ensures
        r.access_token_required <==> config.access_token is Some,
        r.allow_base_url_override == config.allow_base_url_override,
        r.max_call_secs == config.max_call_secs,
        r.default_model@ == config.openai_model@,
        r.default_voice@ == config.murf_voice@,
        r.default_language@ == config.stt_language@,
        r.default_system_prompt@ == config.system_prompt@,
{
}

/// The operator is warned of a server that anyone can reach and use, and of one that sends its key
/// wherever it is told; and of nothing else.
pub proof fn law_the_operator_is_warned(config: Config, r: Vec<String>)
    requires
        call_ensures(startup_warnings, (&config,), r),
    ensures
        ({
            let open = config.access_token is None && !"127."@.is_prefix_of(config.addr@);
            let lines = (if open {
                1int
            } else {
                0
            }) + (if config.allow_base_url_override {
                1int
            } else {
                0
            });
            &&& r@.len() == lines
            &&& open ==> r@[0]@
                == "no ACCESS_TOKEN set while listening beyond localhost: anyone who can reach this server can start calls on your API keys"@
            &&& config.allow_base_url_override ==> r@[lines - 1]@
                == "ALLOW_BASE_URL_OVERRIDE is on: callers can send OPENAI_API_KEY to any endpoint"@
        }),
{
    assert(texts(r@).len() == r@.len());
    assert forall|i: int| 0 <= i < r@.len() implies texts(r@)[i] == #[trigger] r@[i]@ by {}
}

/// The operator is told where the server listens, and what calls it takes.
pub proof fn law_the_operator_is_told_of_the_server(config: Config, r: String)
    requires
        call_ensures(listening_line, (&config,), r),
    ensures
        r@ == "sol-li-ni listening on http://"@ + config.addr@ + " (max "@ + decimal_text(
            config.max_calls as nat,
        ) + " calls, "@ + decimal_text(config.max_call_secs as nat) + " s each"@ + (
        if config.access_token is Some {
            ", access token required"@
        } else {
            seq![]
        }) + ")"@,
{
}

} // verus!
