//! The configuration of the agent and how it comes from the environment.
use crate::error::{CogentError, CogentResult, ErrorView};
use crate::text::{self, ascii_lower_str, copy_str, parse_u64, str_eq};
use crate::types::{self, copy_opt};
use vstd::prelude::*;

verus! {

/// The configuration of the agent.
#[derive(Debug, Clone)]
pub struct Config {
    /// Name of the provider.
    pub provider: String,
    /// Name of the model.
    pub model: String,
    /// The API key, where the provider needs one.
    pub api_key: Option<String>,
    /// Another endpoint than the provider's own.
    pub base_url: Option<String>,
    /// The limit of iterations of a run.
    pub max_iterations: usize,
    /// The budget of tokens of the context.
    pub max_context_tokens: usize,
    /// How many events the event bus holds.
    pub event_bus_capacity: usize,
    /// Where traces are sent, if anywhere.
    pub otel_endpoint: Option<String>,
    /// Whether edits are approved without asking.
    pub auto_approve: bool,
    /// Whether Java files are compiled after they are written.
    pub java_check: bool,
}

/// What a configuration says.
#[verifier::ext_equal]
pub struct ConfigView {
    pub provider: Seq<char>,
    pub model: Seq<char>,
    pub api_key: Option<Seq<char>>,
    pub base_url: Option<Seq<char>>,
    pub max_iterations: nat,
    pub max_context_tokens: nat,
    pub event_bus_capacity: nat,
    pub otel_endpoint: Option<Seq<char>>,
    pub auto_approve: bool,
    pub java_check: bool,
}

impl View for Config {
    type V = ConfigView;

    open spec fn view(&self) -> ConfigView {
        ConfigView {
            provider: self.provider@,
            model: self.model@,
            api_key: types::opt_view(self.api_key),
            base_url: types::opt_view(self.base_url),
            max_iterations: self.max_iterations as nat,
            max_context_tokens: self.max_context_tokens as nat,
            event_bus_capacity: self.event_bus_capacity as nat,
            otel_endpoint: types::opt_view(self.otel_endpoint),
            auto_approve: self.auto_approve,
            java_check: self.java_check,
        }
    }
}

/// The environment variables that the configuration is read from, each with
/// its value where it is set.
#[derive(Debug, Clone, Default)]
pub struct EnvVars {
    /// `COGENT_PROVIDER`
    pub provider: Option<String>,
    /// `COGENT_MODEL`
    pub model: Option<String>,
    /// `OPENAI_API_KEY`
    pub openai_api_key: Option<String>,
    /// `COGENT_BASE_URL`
    pub base_url: Option<String>,
    /// `COGENT_MAX_ITERATIONS`
    pub max_iterations: Option<String>,
    /// `COGENT_MAX_CONTEXT_TOKENS`
    pub max_context_tokens: Option<String>,
    /// `COGENT_OTEL_ENDPOINT`
    pub otel_endpoint: Option<String>,
    /// `COGENT_AUTO_APPROVE`
    pub auto_approve: Option<String>,
    /// `COGENT_JAVA_CHECK`
    pub java_check: Option<String>,
}

/// The switches among the environment variables.
#[derive(Debug, Clone, Copy)]
pub struct EnvFlags {
    /// Whether edits are approved without asking.
    pub auto_approve: bool,
    /// Whether Java files are compiled after they are written.
    pub java_check: bool,
}

/// The value of a variable, or a default where it is not set.
pub open spec fn or_default(v: Option<String>, default: Seq<char>) -> Seq<char> {
    match v {
        Some(s) => s@,
        None => default,
    }
}

/// The number that a variable holds, or a default where it is not set or holds
/// no number of type `usize`.
pub open spec fn number_or(v: Option<String>, default: nat) -> nat {
    match v {
        Some(s) => match text::parse_unsigned(s@, usize::MAX as nat) {
            Some(n) => n,
            None => default,
        },
        None => default,
    }
}

impl EnvVars {
    /// The name of the provider.
    pub open spec fn provider_name(self) -> Seq<char> {
        or_default(self.provider, "openai"@)
    }

    /// Whether the provider is OpenAI, in whatever case it is written.
    pub open spec fn wants_openai(self) -> bool {
        text::ascii_lower(self.provider_name()) == "openai"@
    }

    /// Whether edits are approved without asking: unless the variable is
    /// `false` or `0`.
    pub open spec fn approves(self) -> bool {
        match self.auto_approve {
            Some(s) => s@ != "false"@ && s@ != "0"@,
            None => true,
        }
    }

    /// Whether Java files are compiled: only if the variable is `true` or `1`.
    pub open spec fn checks_java(self) -> bool {
        match self.java_check {
            Some(s) => s@ == "true"@ || s@ == "1"@,
            None => false,
        }
    }

    /// The switches that the variables set.
    pub fn flags(&self) -> (r: EnvFlags)
        ensures
            r.auto_approve == self.approves(),
            r.java_check == self.checks_java(),
    {
        let auto_approve = match &self.auto_approve {
            Some(s) => !str_eq(s, "false") && !str_eq(s, "0"),
            None => true,
        };
        let java_check = match &self.java_check {
            Some(s) => str_eq(s, "true") || str_eq(s, "1"),
            None => false,
        };
        EnvFlags { auto_approve, java_check }
    }

    /// The configuration that the variables give, or why they give none.
    pub open spec fn loaded(self) -> Result<ConfigView, ErrorView> {
        if self.wants_openai() && self.openai_api_key is None {
            Err(ErrorView::Config("missing required env: OPENAI_API_KEY"@))
        } else if self.wants_openai() && self.openai_api_key->0@.len() == 0 {
            Err(ErrorView::Config("OPENAI_API_KEY is set but empty"@))
        } else {
            Ok(
                ConfigView {
                    provider: self.provider_name(),
                    model: or_default(self.model, "gpt-4o-mini"@),
                    api_key: if self.wants_openai() {
                        types::opt_view(self.openai_api_key)
                    } else {
                        None
                    },
                    base_url: types::opt_view(self.base_url),
                    max_iterations: number_or(self.max_iterations, 20),
                    max_context_tokens: number_or(self.max_context_tokens, 8000),
                    event_bus_capacity: 256,
                    otel_endpoint: types::opt_view(self.otel_endpoint),
                    auto_approve: self.approves(),
                    java_check: self.checks_java(),
                },
            )
        }
    }
}

/// The value of a variable, or a default.
fn value_or(v: &Option<String>, default: &str) -> (r: String)
    ensures
        r@ == or_default(*v, default@),
{
    match v {
        Some(s) => copy_str(s),
        None => copy_str(default),
    }
}

/// The number that a variable holds, or a default.
fn parsed_or(v: &Option<String>, default: usize) -> (r: usize)
    ensures
        r == number_or(*v, default as nat),
{
    match v {
        Some(s) => match parse_u64(s, usize::MAX as u64) {
            Some(n) => n as usize,
            None => default,
        },
        None => default,
    }
}

impl Config {
    /// The configuration that the environment variables give.
    pub fn from_env(env: &EnvVars) -> (r: CogentResult<Self>)
        ensures
            match r {
                Ok(c) => env.loaded() == Ok::<ConfigView, ErrorView>(c@),
                Err(e) => env.loaded() == Err::<ConfigView, ErrorView>(e@),
            },
    {
        let provider = value_or(&env.provider, "openai");
        let model = value_or(&env.model, "gpt-4o-mini");
        let lower = ascii_lower_str(&provider);
        let api_key = if str_eq(&lower, "openai") {
            match &env.openai_api_key {
                None => {
                    return Err(
                        CogentError::Config(copy_str("missing required env: OPENAI_API_KEY")),
                    );
                },
                Some(key) => {
                    let chars = text::to_chars(key);
                    if chars.len() == 0 {
                        return Err(CogentError::Config(copy_str("OPENAI_API_KEY is set but empty")));
                    }
                    Some(copy_str(key))
                },
            }
        } else {
            None
        };
        let flags = env.flags();
        Ok(
            Config {
                provider,
                model,
                api_key,
                base_url: copy_opt(&env.base_url),
                max_iterations: parsed_or(&env.max_iterations, 20),
                max_context_tokens: parsed_or(&env.max_context_tokens, 8000),
                event_bus_capacity: 256,
                otel_endpoint: copy_opt(&env.otel_endpoint),
                auto_approve: flags.auto_approve,
                java_check: flags.java_check,
            },
        )
    }
}

impl Default for Config {
    /// The configuration for tests, which reads no environment.
    fn default() -> (r: Self)
        ensures
            r@ == (ConfigView {
                provider: "openai"@,
                model: "gpt-4o-mini"@,
                api_key: None,
                base_url: None,
                max_iterations: 20,
                max_context_tokens: 8000,
                event_bus_capacity: 256,
                otel_endpoint: None,
                auto_approve: true,
                java_check: false,
            }),
    {
        Config {
            provider: copy_str("openai"),
            model: copy_str("gpt-4o-mini"),
            api_key: None,
            base_url: None,
            max_iterations: 20,
            max_context_tokens: 8000,
            event_bus_capacity: 256,
            otel_endpoint: None,
            auto_approve: true,
            java_check: false,
        }
    }
}

/// Every variable that is set counts: the settings are what the variables say, and
/// the defaults where they say nothing. A number is taken where the variable holds
/// one, in decimal notation.
pub proof fn law_variables_count(env: EnvVars, n: usize, m: usize)
    ensures
        env.loaded() matches Ok(c) ==> {
            &&& env.provider matches Some(s) ==> c.provider == s@
            &&& env.provider is None ==> c.provider == "openai"@
            &&& env.model matches Some(s) ==> c.model == s@
            &&& env.model is None ==> c.model == "gpt-4o-mini"@
            &&& env.base_url matches Some(s) ==> c.base_url == Some(s@)
            &&& env.base_url is None ==> c.base_url is None
            &&& env.otel_endpoint matches Some(s) ==> c.otel_endpoint == Some(s@)
            &&& env.otel_endpoint is None ==> c.otel_endpoint is None
            &&& (env.max_iterations matches Some(s) && s@ == text::decimal(n as nat))
                ==> c.max_iterations == n
            &&& env.max_iterations is None ==> c.max_iterations == 20
            &&& (env.max_iterations matches Some(s) && s@.len() == 0) ==> c.max_iterations == 20
            &&& (env.max_context_tokens matches Some(s) && s@ == text::decimal(m as nat))
                ==> c.max_context_tokens == m
            &&& env.max_context_tokens is None ==> c.max_context_tokens == 8000
            &&& (env.max_context_tokens matches Some(s) && s@.len() == 0) ==> c.max_context_tokens
                == 8000
            &&& c.auto_approve <==> !(env.auto_approve matches Some(s) && (s@ == "false"@ || s@
                == "0"@))
            &&& c.java_check <==> (env.java_check matches Some(s) && (s@ == "true"@ || s@
                == "1"@))
        },
{
    text::law_decimal_is_read_back(n as nat, usize::MAX as nat);
    text::law_decimal_is_read_back(m as nat, usize::MAX as nat);
}

/// The key of the service is needed, and used as it is, where the provider is
/// OpenAI, in whatever case it is written; elsewhere it is not looked at.
pub proof fn law_the_key_is_needed(env: EnvVars)
    ensures
        ({
            let name = match env.provider {
                Some(s) => s@,
                None => "openai"@,
            };
            let openai = text::ascii_lower(name) == "openai"@;
            let key = env.openai_api_key;
            &&& env.loaded() is Ok <==> !openai || (key is Some && key->0@.len() > 0)
            &&& env.loaded() matches Ok(c) ==> c.api_key == (if openai {
                Some(key->0@)
            } else {
                None
            })
            &&& env.loaded() matches Err(e) ==> e is Config
        }),
{
}

/// The provider is recognised in lower case, as the default is.
pub proof fn law_the_default_provider_needs_a_key(env: EnvVars)
    requires
        env.provider is None,
    ensures
        env.loaded() is Ok <==> (env.openai_api_key is Some && env.openai_api_key->0@.len() > 0),
{
    reveal_strlit("openai");
    assert(text::ascii_lower("openai"@) =~= "openai"@);
}

} // verus!
