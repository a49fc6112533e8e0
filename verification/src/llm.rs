//! LLM provider configuration and the provider-neutral handling of chat
//! replies: provider profiles, configuration validation, retry timing, and
//! the normalization of model output before schema parsing.
//!
//! The HTTP client, the shared runtime configuration and environment reads
//! live at the edge of the program; this module decides what they produce.
use vstd::prelude::*;

use crate::graph::types::opt_str;
use crate::json::{get_member, JsonValue};
use crate::llm::error::{is_retryable_error, service_failure, LlmServiceError};
use crate::text::ascii_lower;
use crate::text::{
    chars_of, decimal_string, seq_lt, is_blank, join, join_strings, lowercase, push_char, str_eq, string_of_chars, strs,
    to_lowercase, trim, trim_seq, trim_start_seq,
};

pub mod default_generation;
pub mod default_generation_schema;
pub mod error;

pub use default_generation_schema::{LlmSchemaError, LlmValidationError};
pub use error::{LlmConfigError, LlmConfigErrorView, LlmFailure, LlmFailureCode, LlmFailureView};

verus! {

pub const DEFAULT_OLLAMA_BASE_URL: &'static str = "http://127.0.0.1:11434";

pub const DEFAULT_OPENROUTER_BASE_URL: &'static str = "https://openrouter.ai/api/v1";

pub const DEFAULT_OPENAI_BASE_URL: &'static str = "https://api.openai.com/v1";

pub const DEFAULT_TIMEOUT_SECS: u64 = 60;

pub const GENERATION_MAX_ATTEMPTS: usize = 4;

pub const PROVIDER_REASON: &'static str = "expected 'ollama' or 'openrouter'";

// =====================================================================
// Providers
// =====================================================================
/// A supported LLM provider.
#[derive(Debug, Clone, Copy, PartialEq, Eq, Structural)]
pub enum LlmProvider {
    Ollama,
    OpenAi,
    OpenRouter,
}

/// The provider's configuration name.
pub open spec fn provider_name(p: LlmProvider) -> Seq<char> {
    match p {
        LlmProvider::Ollama => "ollama"@,
        LlmProvider::OpenAi => "openai"@,
        LlmProvider::OpenRouter => "openrouter"@,
    }
}

/// The provider a configuration value selects: case-insensitive, ignoring
/// surrounding white space; only `ollama` and `openrouter` are accepted.
pub open spec fn parse_provider(raw: Seq<char>) -> Option<LlmProvider> {
    let key = lowercase(trim_seq(raw));
    if key == "ollama"@ {
        Some(LlmProvider::Ollama)
    } else if key == "openrouter"@ {
        Some(LlmProvider::OpenRouter)
    } else {
        None
    }
}

/// The configuration error for an unrecognized provider value.
pub open spec fn provider_error(raw: Seq<char>) -> LlmConfigErrorView {
    LlmConfigErrorView::InvalidValue { key: "LLM_PROVIDER"@, value: raw, reason: PROVIDER_REASON@ }
}

impl LlmProvider {
    /// The provider's configuration name.
    pub fn as_str(&self) -> (r: &'static str)
        ensures
            r@ == provider_name(*self),
    {
        match self {
            LlmProvider::Ollama => "ollama",
            LlmProvider::OpenAi => "openai",
            LlmProvider::OpenRouter => "openrouter",
        }
    }

    /// Parses a configuration value into a provider.
    pub fn from_str(raw: &str) -> (r: Result<Self, LlmConfigError>)
        ensures
            match r {
                Ok(p) => parse_provider(raw@) == Some(p),
                Err(e) => parse_provider(raw@) is None && e@ == provider_error(raw@),
            },
    {
        let trimmed = trim(raw);
        let key = to_lowercase(trimmed.as_str());
        if str_eq(key.as_str(), "ollama") {
            Ok(LlmProvider::Ollama)
        } else if str_eq(key.as_str(), "openrouter") {
            Ok(LlmProvider::OpenRouter)
        } else {
            Err(
                LlmConfigError::InvalidValue {
                    key: String::from_str("LLM_PROVIDER"),
                    value: String::from_str(raw),
                    reason: String::from_str(PROVIDER_REASON),
                },
            )
        }
    }
}

/// Connection defaults of a provider.
#[derive(Debug, Clone, Copy)]
pub struct ProviderProfile {
    pub default_base_url: &'static str,
    pub chat_path: &'static str,
    pub bypass_proxy: bool,
}

/// The default base URL of a provider.
pub open spec fn profile_base_url(p: LlmProvider) -> Seq<char> {
    match p {
        LlmProvider::Ollama => DEFAULT_OLLAMA_BASE_URL@,
        LlmProvider::OpenAi => DEFAULT_OPENAI_BASE_URL@,
        LlmProvider::OpenRouter => DEFAULT_OPENROUTER_BASE_URL@,
    }
}

/// The chat endpoint path of a provider.
pub open spec fn profile_chat_path(p: LlmProvider) -> Seq<char> {
    match p {
        LlmProvider::Ollama => "/api/chat"@,
        _ => "/chat/completions"@,
    }
}

/// Whether requests to the provider bypass system proxies (local servers).
pub open spec fn profile_bypasses_proxy(p: LlmProvider) -> bool {
    p == LlmProvider::Ollama
}

/// The profile every provider name maps to.
pub fn provider_registry() -> (r: Vec<(&'static str, ProviderProfile)>)
    ensures
        r@.len() == 3,
        forall|i: int|
            0 <= i < 3 ==> {
                let p = if i == 0 {
                    LlmProvider::Ollama
                } else if i == 1 {
                    LlmProvider::OpenAi
                } else {
                    LlmProvider::OpenRouter
                };
                &&& (#[trigger] r@[i]).0@ == provider_name(p)
                &&& r@[i].1.default_base_url@ == profile_base_url(p)
                &&& r@[i].1.chat_path@ == profile_chat_path(p)
                &&& r@[i].1.bypass_proxy == profile_bypasses_proxy(p)
            },
{
    let mut r: Vec<(&'static str, ProviderProfile)> = Vec::new();
    r.push(
        (
            "ollama",
            ProviderProfile { default_base_url: DEFAULT_OLLAMA_BASE_URL, chat_path: "/api/chat", bypass_proxy: true },
        ),
    );
    r.push(
        (
            "openai",
            ProviderProfile {
                default_base_url: DEFAULT_OPENAI_BASE_URL,
                chat_path: "/chat/completions",
                bypass_proxy: false,
            },
        ),
    );
    r.push(
        (
            "openrouter",
            ProviderProfile {
                default_base_url: DEFAULT_OPENROUTER_BASE_URL,
                chat_path: "/chat/completions",
                bypass_proxy: false,
            },
        ),
    );
    r
}

/// The profile of a provider, looked up by its name in the registry.
pub fn provider_profile(provider: LlmProvider) -> (r: ProviderProfile)
    ensures
        r.default_base_url@ == profile_base_url(provider),
        r.chat_path@ == profile_chat_path(provider),
        r.bypass_proxy == profile_bypasses_proxy(provider),
{
    let registry = provider_registry();
    let name = provider.as_str();
    proof {
        reveal_strlit("ollama");
        reveal_strlit("openai");
        reveal_strlit("openrouter");
    }
    let ghost target: int = match provider {
        LlmProvider::Ollama => 0,
        LlmProvider::OpenAi => 1,
        LlmProvider::OpenRouter => 2,
    };
    proof {
        assert("ollama"@[1] != "openai"@[1]);
        assert("ollama"@.len() != "openrouter"@.len());
        assert("openai"@.len() != "openrouter"@.len());
        assert(registry@[0].0@ == "ollama"@);
        assert(registry@[1].0@ == "openai"@);
        assert(registry@[2].0@ == "openrouter"@);
        assert(registry@[target].0@ == name@);
        assert forall|j: int| 0 <= j < 3 && j != target implies (#[trigger] registry@[j]).0@ != name@ by {
            if j == 0 {
                assert(registry@[0].0@ == "ollama"@);
            } else if j == 1 {
                assert(registry@[1].0@ == "openai"@);
            } else {
                assert(registry@[2].0@ == "openrouter"@);
            }
        }
        assert(registry@[target].1.default_base_url@ == profile_base_url(provider));
        assert(registry@[target].1.chat_path@ == profile_chat_path(provider));
        assert(registry@[target].1.bypass_proxy == profile_bypasses_proxy(provider));
    }
    let mut i: usize = 0;
    while i < registry.len()
        invariant
            0 <= target < 3,
            registry@.len() == 3,
            i <= target,
            registry@[target].0@ == name@,
            forall|j: int| 0 <= j < 3 && j != target ==> (#[trigger] registry@[j]).0@ != name@,
            registry@[target].1.default_base_url@ == profile_base_url(provider),
            registry@[target].1.chat_path@ == profile_chat_path(provider),
            registry@[target].1.bypass_proxy == profile_bypasses_proxy(provider),
        decreases registry@.len() - i,
    {
        if str_eq(registry[i].0, name) {
            assert(i == target);
            return registry[i].1;
        }
        i = i + 1;
    }
    registry[0].1
}

// =====================================================================
// Configuration
// =====================================================================
/// A complete LLM configuration.
#[derive(Debug)]
pub struct LlmConfig {
    pub provider: LlmProvider,
    pub base_url: String,
    pub model: String,
    pub timeout_secs: u64,
    pub api_key: Option<String>,
}

pub struct LlmConfigView {
    pub provider: LlmProvider,
    pub base_url: Seq<char>,
    pub model: Seq<char>,
    pub timeout_secs: u64,
    pub api_key: Option<Seq<char>>,
}

impl View for LlmConfig {
    type V = LlmConfigView;

    open spec fn view(&self) -> LlmConfigView {
        LlmConfigView {
            provider: self.provider,
            base_url: self.base_url@,
            model: self.model@,
            timeout_secs: self.timeout_secs,
            api_key: opt_str(self.api_key),
        }
    }
}

/// The values of the configuration environment variables, each absent when
/// unset.
#[derive(Debug)]
pub struct LlmEnv {
    /// `LLM_PROVIDER`: `ollama` or `openrouter`.
    pub llm_provider: Option<String>,
    /// `LLM_BASE_URL`: base URL override for every provider.
    pub llm_base_url: Option<String>,
    /// `OPENROUTER_BASE_URL`: OpenRouter base URL override.
    pub openrouter_base_url: Option<String>,
    /// `LLM_MODEL`: model id.
    pub llm_model: Option<String>,
    /// `LLM_TIMEOUT_SECS`: request timeout in seconds.
    pub llm_timeout_secs: Option<String>,
    /// `OPENROUTER_API_KEY`: required for OpenRouter.
    pub openrouter_api_key: Option<String>,
}

pub struct LlmEnvView {
    pub llm_provider: Option<Seq<char>>,
    pub llm_base_url: Option<Seq<char>>,
    pub openrouter_base_url: Option<Seq<char>>,
    pub llm_model: Option<Seq<char>>,
    pub llm_timeout_secs: Option<Seq<char>>,
    pub openrouter_api_key: Option<Seq<char>>,
}

impl View for LlmEnv {
    type V = LlmEnvView;

    open spec fn view(&self) -> LlmEnvView {
        LlmEnvView {
            llm_provider: opt_str(self.llm_provider),
            llm_base_url: opt_str(self.llm_base_url),
            openrouter_base_url: opt_str(self.openrouter_base_url),
            llm_model: opt_str(self.llm_model),
            llm_timeout_secs: opt_str(self.llm_timeout_secs),
            openrouter_api_key: opt_str(self.openrouter_api_key),
        }
    }
}

/// The value of a string of ASCII decimal digits.
pub open spec fn digits_value(s: Seq<char>) -> nat
    decreases s.len(),
{
    if s.len() == 0 {
        0
    } else {
        digits_value(s.drop_last()) * 10 + (s.last() as nat - '0' as nat) as nat
    }
}

/// `str::parse::<u64>` as documented: an optional `+`, then one or more
/// ASCII digits whose value fits in `u64`.
pub open spec fn parsed_u64(s: Seq<char>) -> Option<u64> {
    let d = unsigned_digits(s);
    if d.len() > 0 && (forall|i: int| 0 <= i < d.len() ==> '0' <= #[trigger] d[i] <= '9') && digits_value(d)
        <= u64::MAX {
        Some(digits_value(d) as u64)
    } else {
        None
    }
}

/// The digits after an optional `+` in a decimal string.
pub open spec fn unsigned_digits(s: Seq<char>) -> Seq<char> {
    if s.len() > 0 && s[0] == '+' {
        s.drop_first()
    } else {
        s
    }
}

proof fn lemma_digits_value_monotone(d: Seq<char>, i: int)
    requires
        0 <= i <= d.len(),
        forall|k: int| 0 <= k < d.len() ==> '0' <= #[trigger] d[k] <= '9',
    ensures
        digits_value(d.take(i)) <= digits_value(d),
    decreases d.len() - i,
{
    if i < d.len() {
        lemma_digits_value_monotone(d, i + 1);
        assert(d.take(i + 1).drop_last() =~= d.take(i));
    } else {
        assert(d.take(i) =~= d);
    }
}

/// Reads a decimal `u64` the way `str::parse::<u64>` does: an optional
/// `+`, then one or more ASCII digits whose value fits in `u64`.
fn parse_u64(s: &str) -> (r: Option<u64>)
    ensures
        r == parsed_u64(s@),
{
    let cs = crate::text::chars_of(s);
    let start: usize = if cs.len() > 0 && cs[0] == '+' {
        1
    } else {
        0
    };
    let ghost d = unsigned_digits(s@);
    assert(d =~= cs@.skip(start as int));
    if start >= cs.len() {
        return None;
    }
    let mut value: u64 = 0;
    let mut i: usize = start;
    while i < cs.len()
        invariant
            start <= i <= cs.len(),
            cs@ == s@,
            d == cs@.skip(start as int),
            d == unsigned_digits(s@),
            d.len() > 0,
            forall|k: int| start <= k < i ==> '0' <= #[trigger] cs@[k] <= '9',
            value == digits_value(d.take(i - start)),
        decreases cs.len() - i,
    {
        let c = cs[i];
        assert(d.take(i + 1 - start).drop_last() =~= d.take(i - start));
        assert(d.take(i + 1 - start).last() == c);
        if c < '0' || c > '9' {
            assert(d[i - start] == c);
            assert(!(forall|k: int| 0 <= k < d.len() ==> '0' <= #[trigger] d[k] <= '9'));
            assert(parsed_u64(s@) is None);
            return None;
        }
        let digit = (c as u32 - '0' as u32) as u64;
        if value > (u64::MAX - digit) / 10 {
            proof {
                assert(digits_value(d.take(i + 1 - start)) == value * 10 + digit);
                if forall|k: int| 0 <= k < d.len() ==> '0' <= #[trigger] d[k] <= '9' {
                    lemma_digits_value_monotone(d, i + 1 - start);
                }
                assert(value * 10 + digit > u64::MAX) by (nonlinear_arith)
                    requires
                        value > (u64::MAX - digit) / 10,
                        digit <= 9,
                ;
                assert(parsed_u64(s@) is None);
            }
            return None;
        }
        proof {
            assert(value * 10 + digit <= u64::MAX) by (nonlinear_arith)
                requires
                    value <= (u64::MAX - digit) / 10,
                    digit <= 9,
            ;
        }
        value = value * 10 + digit;
        i = i + 1;
    }
    assert(d.take(i - start) =~= d);
    assert forall|k: int| 0 <= k < d.len() implies '0' <= #[trigger] d[k] <= '9' by {
        assert(d[k] == cs@[k + start]);
    }
    Some(value)
}

/// A numeric setting: its parsed value, the default when unset, or an
/// `InvalidInteger` error naming the key and the raw value.
pub open spec fn u64_setting(key: Seq<char>, value: Option<Seq<char>>, default_value: u64) -> Result<u64, LlmConfigErrorView> {
    match value {
        None => Ok(default_value),
        Some(v) => match parsed_u64(v) {
            Some(n) => Ok(n),
            None => Err(LlmConfigErrorView::InvalidInteger { key, value: v }),
        },
    }
}

/// Parses a numeric environment value, falling back to a default when the
/// variable is unset.
pub fn parse_u64_env(key: &str, value: Option<&str>, default_value: u64) -> (r: Result<u64, LlmConfigError>)
    ensures
        match r {
            Ok(n) => u64_setting(key@, opt_view(value), default_value) == Ok::<u64, LlmConfigErrorView>(n),
            Err(e) => u64_setting(key@, opt_view(value), default_value) == Err::<u64, LlmConfigErrorView>(e@),
        },
{
    match value {
        None => Ok(default_value),
        Some(v) => match parse_u64(v) {
            Some(n) => Ok(n),
            None => Err(LlmConfigError::InvalidInteger { key: String::from_str(key), value: String::from_str(v) }),
        },
    }
}

/// The view of an optional string slice.
pub open spec fn opt_view(o: Option<&str>) -> Option<Seq<char>> {
    match o {
        Some(s) => Some(s@),
        None => None,
    }
}

/// The base URL the environment selects for a provider.
pub open spec fn env_base_url(env: LlmEnvView, p: LlmProvider) -> Seq<char> {
    match p {
        LlmProvider::OpenRouter => match env.openrouter_base_url {
            Some(u) => u,
            None => match env.llm_base_url {
                Some(u) => u,
                None => profile_base_url(p),
            },
        },
        _ => match env.llm_base_url {
            Some(u) => u,
            None => profile_base_url(p),
        },
    }
}

/// The API key the environment supplies for a provider: none for Ollama,
/// otherwise the trimmed `OPENROUTER_API_KEY`, which must be set and not
/// blank.
pub open spec fn env_api_key(env: LlmEnvView, p: LlmProvider) -> Result<Option<Seq<char>>, LlmConfigErrorView> {
    match p {
        LlmProvider::Ollama => Ok(None),
        _ => match env.openrouter_api_key {
            None => Err(
                LlmConfigErrorView::InvalidValue {
                    key: "OPENROUTER_API_KEY"@,
                    value: Seq::empty(),
                    reason: "is required when LLM_PROVIDER=openrouter"@,
                },
            ),
            Some(k) => if trim_seq(k).len() == 0 {
                Err(
                    LlmConfigErrorView::InvalidValue {
                        key: "OPENROUTER_API_KEY"@,
                        value: "<empty>"@,
                        reason: "must be non-empty when LLM_PROVIDER=openrouter"@,
                    },
                )
            } else {
                Ok(Some(trim_seq(k)))
            },
        },
    }
}

/// The configuration the environment describes, or the first problem with
/// it: provider, base URL, model, timeout, then API key.
pub open spec fn config_from_env(env: LlmEnvView) -> Result<LlmConfigView, LlmConfigErrorView> {
    match env.llm_provider {
        None => Err(LlmConfigErrorView::NotConfigured),
        Some(raw) => match parse_provider(raw) {
            None => Err(provider_error(raw)),
            Some(p) => match env.llm_model {
                None => Err(LlmConfigErrorView::NotConfigured),
                Some(m) => if trim_seq(m).len() == 0 {
                    Err(LlmConfigErrorView::NotConfigured)
                } else {
                    match u64_setting("LLM_TIMEOUT_SECS"@, env.llm_timeout_secs, DEFAULT_TIMEOUT_SECS) {
                        Err(e) => Err(e),
                        Ok(t) => match env_api_key(env, p) {
                            Err(e) => Err(e),
                            Ok(k) => Ok(
                                LlmConfigView {
                                    provider: p,
                                    base_url: env_base_url(env, p),
                                    model: m,
                                    timeout_secs: t,
                                    api_key: k,
                                },
                            ),
                        },
                    }
                },
            },
        },
    }
}

/// A configuration installed at run time, or the first problem with it:
/// provider, base URL, model, timeout, then API key. Base URL, model and API
/// key are trimmed.
pub open spec fn runtime_config(
    provider: Seq<char>,
    base_url: Seq<char>,
    model: Seq<char>,
    timeout_secs: u64,
    api_key: Option<Seq<char>>,
) -> Result<LlmConfigView, LlmConfigErrorView> {
    match parse_provider(provider) {
        None => Err(provider_error(provider)),
        Some(p) => if trim_seq(base_url).len() == 0 {
            Err(LlmConfigErrorView::InvalidValue { key: "base_url"@, value: base_url, reason: "must be non-empty"@ })
        } else if trim_seq(model).len() == 0 {
            Err(LlmConfigErrorView::InvalidValue { key: "model"@, value: model, reason: "must be non-empty"@ })
        } else if timeout_secs == 0 {
            Err(
                LlmConfigErrorView::InvalidValue {
                    key: "timeout_secs"@,
                    value: "0"@,
                    reason: "must be greater than 0"@,
                },
            )
        } else {
            let key: Result<Option<Seq<char>>, LlmConfigErrorView> = match p {
                LlmProvider::Ollama => Ok(None),
                _ => match api_key {
                    Some(k) => if trim_seq(k).len() == 0 {
                        Err(
                            LlmConfigErrorView::InvalidValue {
                                key: "api_key"@,
                                value: "<empty>"@,
                                reason: "is required when provider=openrouter"@,
                            },
                        )
                    } else {
                        Ok(Some(trim_seq(k)))
                    },
                    None => Err(
                        LlmConfigErrorView::InvalidValue {
                            key: "api_key"@,
                            value: "<empty>"@,
                            reason: "is required when provider=openrouter"@,
                        },
                    ),
                },
            };
            match key {
                Err(e) => Err(e),
                Ok(k) => Ok(
                    LlmConfigView {
                        provider: p,
                        base_url: trim_seq(base_url),
                        model: trim_seq(model),
                        timeout_secs,
                        api_key: k,
                    },
                ),
            }
        },
    }
}

/// `s` without trailing `/` characters.
pub open spec fn trim_end_slashes(s: Seq<char>) -> Seq<char>
    decreases s.len(),
{
    if s.len() > 0 && s.last() == '/' {
        trim_end_slashes(s.drop_last())
    } else {
        s
    }
}

fn copy_opt(o: &Option<String>) -> (r: Option<String>)
    ensures
        opt_str(r) == opt_str(*o),
{
    match o {
        Some(s) => Some(s.clone()),
        None => None,
    }
}

fn without_trailing_slashes(s: &str) -> (r: String)
    ensures
        r@ == trim_end_slashes(s@),
{
    let chars = chars_of(s);
    let mut end = chars.len();
    assert(chars@.take(end as int) =~= chars@);
    while end > 0 && chars[end - 1] == '/'
        invariant
            end <= chars@.len(),
            trim_end_slashes(chars@) == trim_end_slashes(chars@.take(end as int)),
        decreases end,
    {
        assert(chars@.take(end as int).drop_last() =~= chars@.take(end - 1));
        end = end - 1;
    }
    assert(trim_end_slashes(chars@.take(end as int)) == chars@.take(end as int));
    let mut kept: Vec<char> = Vec::new();
    for i in 0..end
        invariant
            end <= chars@.len(),
            kept@ == chars@.take(i as int),
    {
        kept.push(chars[i]);
        assert(kept@ =~= chars@.take(i + 1));
    }
    string_of_chars(&kept)
}

/// The model-listing endpoint of an Ollama server: the trimmed base URL
/// without trailing slashes, then `/api/tags`.
pub fn ollama_tags_url(base_url: &str) -> (r: String)
    ensures
        r@ == trim_end_slashes(trim_seq(base_url@)) + "/api/tags"@,
{
    let trimmed = trim(base_url);
    let mut out = without_trailing_slashes(trimmed.as_str());
    out.append("/api/tags");
    out
}

impl LlmConfig {
    /// Builds the configuration from the environment's values.
    pub fn from_env(env: &LlmEnv) -> (r: Result<Self, LlmConfigError>)
        ensures
            match r {
                Ok(c) => config_from_env(env@) == Ok::<LlmConfigView, LlmConfigErrorView>(c@),
                Err(e) => config_from_env(env@) == Err::<LlmConfigView, LlmConfigErrorView>(e@),
            },
    {
        let raw = match &env.llm_provider {
            Some(raw) => raw,
            None => {
                return Err(LlmConfigError::NotConfigured);
            },
        };
        let provider = match LlmProvider::from_str(raw.as_str()) {
            Ok(p) => p,
            Err(e) => {
                return Err(e);
            },
        };
        let profile = provider_profile(provider);
        let base_url = match provider {
            LlmProvider::OpenRouter => match &env.openrouter_base_url {
                Some(u) => u.clone(),
                None => match &env.llm_base_url {
                    Some(u) => u.clone(),
                    None => String::from_str(profile.default_base_url),
                },
            },
            _ => match &env.llm_base_url {
                Some(u) => u.clone(),
                None => String::from_str(profile.default_base_url),
            },
        };
        let model = match &env.llm_model {
            Some(m) => m.clone(),
            None => {
                return Err(LlmConfigError::NotConfigured);
            },
        };
        if is_blank(model.as_str()) {
            return Err(LlmConfigError::NotConfigured);
        }
        let timeout_value: Option<&str> = match &env.llm_timeout_secs {
            Some(t) => Some(t.as_str()),
            None => None,
        };
        let timeout_secs = match parse_u64_env("LLM_TIMEOUT_SECS", timeout_value, DEFAULT_TIMEOUT_SECS) {
            Ok(t) => t,
            Err(e) => {
                return Err(e);
            },
        };
        let api_key = match provider {
            LlmProvider::Ollama => None,
            _ => match &env.openrouter_api_key {
                None => {
                    return Err(
                        LlmConfigError::InvalidValue {
                            key: String::from_str("OPENROUTER_API_KEY"),
                            value: String::new(),
                            reason: String::from_str("is required when LLM_PROVIDER=openrouter"),
                        },
                    );
                },
                Some(k) => {
                    if is_blank(k.as_str()) {
                        return Err(
                            LlmConfigError::InvalidValue {
                                key: String::from_str("OPENROUTER_API_KEY"),
                                value: String::from_str("<empty>"),
                                reason: String::from_str("must be non-empty when LLM_PROVIDER=openrouter"),
                            },
                        );
                    }
                    Some(trim(k.as_str()))
                },
            },
        };
        Ok(LlmConfig { provider, base_url, model, timeout_secs, api_key })
    }

    /// The chat endpoint: the base URL without trailing slashes, then the
    /// provider's chat path.
    pub fn chat_url(&self) -> (r: String)
        ensures
            r@ == trim_end_slashes(self.base_url@) + profile_chat_path(self.provider),
    {
        let profile = provider_profile(self.provider);
        let mut out = without_trailing_slashes(self.base_url.as_str());
        out.append(profile.chat_path);
        out
    }

    /// A field-by-field copy.
    pub fn duplicate(&self) -> (r: Self)
        ensures
            r@ == self@,
    {
        LlmConfig {
            provider: self.provider,
            base_url: self.base_url.clone(),
            model: self.model.clone(),
            timeout_secs: self.timeout_secs,
            api_key: copy_opt(&self.api_key),
        }
    }
}

/// The configuration results as views.
pub open spec fn config_result(r: Result<LlmConfig, LlmConfigError>) -> Result<LlmConfigView, LlmConfigErrorView> {
    match r {
        Ok(c) => Ok(c@),
        Err(e) => Err(e@),
    }
}

/// Validates and normalizes settings entered at run time into the
/// configuration to install.
pub fn set_runtime_llm_config(
    provider: &str,
    base_url: &str,
    model: &str,
    timeout_secs: u64,
    api_key: Option<&str>,
) -> (r: Result<LlmConfig, LlmConfigError>)
    ensures
        config_result(r) == runtime_config(provider@, base_url@, model@, timeout_secs, opt_view(api_key)),
{
    let parsed_provider = match LlmProvider::from_str(provider) {
        Ok(p) => p,
        Err(e) => {
            return Err(e);
        },
    };
    if is_blank(base_url) {
        return Err(
            LlmConfigError::InvalidValue {
                key: String::from_str("base_url"),
                value: String::from_str(base_url),
                reason: String::from_str("must be non-empty"),
            },
        );
    }
    if is_blank(model) {
        return Err(
            LlmConfigError::InvalidValue {
                key: String::from_str("model"),
                value: String::from_str(model),
                reason: String::from_str("must be non-empty"),
            },
        );
    }
    if timeout_secs == 0 {
        let value = decimal_string(timeout_secs);
        proof {
            reveal_strlit("0");
            assert(value@ =~= "0"@);
        }
        return Err(
            LlmConfigError::InvalidValue {
                key: String::from_str("timeout_secs"),
                value,
                reason: String::from_str("must be greater than 0"),
            },
        );
    }
    let normalized_api_key = match parsed_provider {
        LlmProvider::Ollama => None,
        _ => {
            let key = match api_key {
                Some(k) => if is_blank(k) {
                    None
                } else {
                    Some(trim(k))
                },
                None => None,
            };
            match key {
                Some(k) => Some(k),
                None => {
                    return Err(
                        LlmConfigError::InvalidValue {
                            key: String::from_str("api_key"),
                            value: String::from_str("<empty>"),
                            reason: String::from_str("is required when provider=openrouter"),
                        },
                    );
                },
            }
        },
    };
    Ok(
        LlmConfig {
            provider: parsed_provider,
            base_url: trim(base_url),
            model: trim(model),
            timeout_secs,
            api_key: normalized_api_key,
        },
    )
}

/// The configuration in effect: the one installed at run time if any,
/// otherwise the one the environment describes.
pub fn resolve_llm_config(runtime: Option<&LlmConfig>, env: &LlmEnv) -> (r: Result<LlmConfig, LlmConfigError>)
    ensures
        config_result(r) == match runtime {
            Some(c) => Ok(c@),
            None => config_from_env(env@),
        },
{
    match runtime {
        Some(config) => Ok(config.duplicate()),
        None => LlmConfig::from_env(env),
    }
}

/// Where a configuration built from the environment points: for OpenRouter,
/// `OPENROUTER_BASE_URL` when it is set, else `LLM_BASE_URL`, else the
/// provider's default; for any other provider, `LLM_BASE_URL` when it is
/// set (`OPENROUTER_BASE_URL` is not read), else the provider's default.
/// The provider is the one `LLM_PROVIDER` names.
pub proof fn lemma_env_config_base_url(env: LlmEnvView, c: LlmConfigView)
    requires
        config_from_env(env) == Ok::<LlmConfigView, LlmConfigErrorView>(c),
    ensures
        env.llm_provider is Some && parse_provider(env.llm_provider->Some_0) == Some(c.provider),
        c.provider == LlmProvider::OpenRouter && env.openrouter_base_url is Some ==> c.base_url
            == env.openrouter_base_url->Some_0,
        c.provider == LlmProvider::OpenRouter && env.openrouter_base_url is None && env.llm_base_url is Some
            ==> c.base_url == env.llm_base_url->Some_0,
        c.provider != LlmProvider::OpenRouter && env.llm_base_url is Some ==> c.base_url == env.llm_base_url->Some_0,
        env.llm_base_url is None && (c.provider != LlmProvider::OpenRouter || env.openrouter_base_url is None)
            ==> c.base_url == profile_base_url(c.provider),
{
}

// =====================================================================
// Retries
// =====================================================================
/// `2^e`.
pub open spec fn doubling(e: nat) -> nat
    decreases e,
{
    if e == 0 {
        1
    } else {
        2 * doubling((e - 1) as nat)
    }
}

proof fn lemma_doubling_bound(e: nat)
    requires
        e <= 10,
    ensures
        doubling(e) <= 1024,
    decreases 10 - e,
{
    if e < 10 {
        lemma_doubling_bound(e + 1);
    } else {
        reveal_with_fuel(doubling, 11);
        assert(doubling(10) == 1024);
    }
}

/// Back-off before retrying after attempt `attempt` (counted from one), in
/// milliseconds: 300 ms doubled per earlier attempt, at most ten times.
pub open spec fn retry_delay_ms(attempt: nat) -> nat {
    let exponent: nat = if attempt == 0 {
        0
    } else {
        (attempt - 1) as nat
    };
    300 * doubling(if exponent > 10 {
        10
    } else {
        exponent
    })
}

/// The back-off in milliseconds before the attempt after `attempt`.
pub fn retry_delay(attempt: usize) -> (r: u64)
    ensures
        r == retry_delay_ms(attempt as nat),
{
    let exponent: usize = if attempt == 0 {
        0
    } else {
        attempt - 1
    };
    let capped: usize = if exponent > 10 {
        10
    } else {
        exponent
    };
    let mut factor: u64 = 1;
    let mut i: usize = 0;
    while i < capped
        invariant
            i <= capped <= 10,
            factor == doubling(i as nat),
        decreases capped - i,
    {
        proof {
            lemma_doubling_bound(i as nat);
        }
        factor = factor * 2;
        i = i + 1;
    }
    proof {
        lemma_doubling_bound(capped as nat);
    }
    300 * factor
}

/// After a failed attempt, the back-off before the next one, or `None` when
/// the error is final: the last attempt was used, or retrying cannot help.
pub fn next_retry_delay(attempt: usize, error: &LlmServiceError) -> (r: Option<u64>)
    ensures
        r == if attempt >= GENERATION_MAX_ATTEMPTS || !service_failure(*error).retryable {
            None::<u64>
        } else {
            Some(retry_delay_ms(attempt as nat) as u64)
        },
{
    if attempt >= GENERATION_MAX_ATTEMPTS || !is_retryable_error(error) {
        None
    } else {
        Some(retry_delay(attempt))
    }
}

// =====================================================================
// Model output normalization
// =====================================================================
/// The position of the first line feed of `s`, or its length.
pub open spec fn first_line_feed(s: Seq<char>) -> int
    decreases s.len(),
{
    if s.len() == 0 {
        0
    } else if s[0] == '\n' {
        0
    } else {
        1 + first_line_feed(s.drop_first())
    }
}

pub proof fn lemma_first_line_feed(s: Seq<char>)
    ensures
        0 <= first_line_feed(s) <= s.len(),
        first_line_feed(s) < s.len() ==> s[first_line_feed(s)] == '\n',
        forall|i: int| 0 <= i < first_line_feed(s) ==> s[i] != '\n',
    decreases s.len(),
{
    if s.len() > 0 && s[0] != '\n' {
        lemma_first_line_feed(s.drop_first());
        assert forall|i: int| 0 <= i < first_line_feed(s) implies s[i] != '\n' by {
            if i > 0 {
                assert(s[i] == s.drop_first()[i - 1]);
            }
        }
    }
}

/// A line without the carriage return of a `\r\n` ending.
pub open spec fn drop_carriage_return(line: Seq<char>) -> Seq<char> {
    if line.len() > 0 && line.last() == '\r' {
        line.drop_last()
    } else {
        line
    }
}

/// The lines of `s` as `str::lines` yields them: split at line feeds, the
/// final line ending optional, and the `\r` of a `\r\n` ending removed.
pub open spec fn lines_of(s: Seq<char>) -> Seq<Seq<char>>
    decreases s.len(),
{
    if s.len() == 0 {
        Seq::empty()
    } else {
        let k = first_line_feed(s);
        proof {
            lemma_first_line_feed(s);
        }
        if k >= s.len() {
            seq![s]
        } else {
            seq![drop_carriage_return(s.take(k))] + lines_of(s.skip(k + 1))
        }
    }
}

proof fn lemma_lines_of_line(cur: Seq<char>, rest: Seq<char>)
    requires
        forall|i: int| 0 <= i < cur.len() ==> cur[i] != '\n',
    ensures
        lines_of(cur + seq!['\n'] + rest) == seq![drop_carriage_return(cur)] + lines_of(rest),
        cur.len() > 0 ==> lines_of(cur) == seq![cur],
    decreases cur.len(),
{
    let s = cur + seq!['\n'] + rest;
    lemma_first_line_feed_at(cur, seq!['\n'] + rest);
    assert(s =~= cur + (seq!['\n'] + rest));
    assert(s.take(cur.len() as int) =~= cur);
    assert(s.skip(cur.len() as int + 1) =~= rest);
    if cur.len() > 0 {
        lemma_first_line_feed_at(cur, Seq::empty());
        assert(cur + Seq::<char>::empty() =~= cur);
    }
}

proof fn lemma_first_line_feed_at(cur: Seq<char>, rest: Seq<char>)
    requires
        forall|i: int| 0 <= i < cur.len() ==> cur[i] != '\n',
        rest.len() > 0 ==> rest[0] == '\n',
    ensures
        first_line_feed(cur + rest) == cur.len(),
    decreases cur.len(),
{
    if cur.len() > 0 {
        assert((cur + rest).drop_first() =~= cur.drop_first() + rest);
        lemma_first_line_feed_at(cur.drop_first(), rest);
    } else {
        assert(cur + rest =~= rest);
    }
}

/// A line without the carriage return of a `\r\n` ending.
fn without_carriage_return(cur: &Vec<char>) -> (r: String)
    ensures
        r@ == drop_carriage_return(cur@),
{
    if cur.len() > 0 && cur[cur.len() - 1] == '\r' {
        let mut trimmed: Vec<char> = Vec::new();
        for j in 0..cur.len() - 1
            invariant
                cur@.len() > 0,
                trimmed@ == cur@.take(j as int),
        {
            trimmed.push(cur[j]);
            assert(trimmed@ =~= cur@.take(j + 1));
        }
        assert(trimmed@ =~= cur@.drop_last());
        string_of_chars(&trimmed)
    } else {
        string_of_chars(cur)
    }
}

/// Splits text into lines as `str::lines` does.
pub fn split_lines(s: &Vec<char>) -> (r: Vec<String>)
    ensures
        strs(r@) == lines_of(s@),
{
    let mut out: Vec<String> = Vec::new();
    let mut cur: Vec<char> = Vec::new();
    assert(s@.skip(0) =~= s@);
    assert(cur@ + s@.skip(0) =~= s@);
    for i in 0..s.len()
        invariant
            lines_of(s@) == strs(out@) + lines_of(cur@ + s@.skip(i as int)),
            forall|j: int| 0 <= j < cur@.len() ==> cur@[j] != '\n',
    {
        let c = s[i];
        assert(s@.skip(i as int) =~= seq![c] + s@.skip(i + 1));
        if c == '\n' {
            let ghost old_cur = cur@;
            let ghost before = out@;
            proof {
                lemma_lines_of_line(old_cur, s@.skip(i + 1));
                assert(old_cur + s@.skip(i as int) =~= old_cur + seq!['\n'] + s@.skip(i + 1));
            }
            let line = without_carriage_return(&cur);
            out.push(line);
            cur = Vec::new();
            proof {
                assert(strs(out@) =~= strs(before).push(drop_carriage_return(old_cur)));
                assert(cur@ + s@.skip(i + 1) =~= s@.skip(i + 1));
                assert(strs(before) + (seq![drop_carriage_return(old_cur)] + lines_of(s@.skip(i + 1))) =~= strs(out@)
                    + lines_of(cur@ + s@.skip(i + 1)));
            }
        } else {
            let ghost before = cur@;
            cur.push(c);
            assert(cur@ + s@.skip(i + 1) =~= before + s@.skip(i as int));
        }
    }
    proof {
        assert(s@.skip(s@.len() as int) =~= Seq::<char>::empty());
        assert(cur@ + Seq::<char>::empty() =~= cur@);
        if cur@.len() > 0 {
            lemma_lines_of_line(cur@, Seq::empty());
        }
    }
    if cur.len() > 0 {
        out.push(string_of_chars(&cur));
    }
    out
}

/// The text starts with a Markdown code fence.
pub open spec fn starts_with_fence(s: Seq<char>) -> bool {
    s.len() >= 3 && s[0] == '`' && s[1] == '`' && s[2] == '`'
}

/// A line that opens or closes a Markdown code fence.
pub open spec fn fence_line(line: Seq<char>) -> bool {
    starts_with_fence(trim_start_seq(line))
}

/// Model output without the Markdown code fence some models wrap JSON in:
/// the trimmed text, and when it starts with a fence, its lines without a
/// first and a last fence line, joined and trimmed again.
pub open spec fn stripped_fences(raw: Seq<char>) -> Seq<char> {
    let t = trim_seq(raw);
    if !starts_with_fence(t) {
        t
    } else {
        let ls = lines_of(t);
        let a = if ls.len() > 0 && fence_line(ls[0]) {
            ls.drop_first()
        } else {
            ls
        };
        let b = if a.len() > 0 && fence_line(a.last()) {
            a.drop_last()
        } else {
            a
        };
        trim_seq(join(b, "\n"@))
    }
}

/// Whether the text starts with a code fence.
fn has_fence(chars: &Vec<char>) -> (r: bool)
    ensures
        r == starts_with_fence(chars@),
{
    chars.len() >= 3 && chars[0] == '`' && chars[1] == '`' && chars[2] == '`'
}

/// Whether a line opens or closes a code fence.
fn is_fence_line(line: &str) -> (r: bool)
    ensures
        r == fence_line(line@),
{
    let chars = chars_of(line);
    let mut i: usize = 0;
    assert(chars@.skip(0) =~= chars@);
    while i < chars.len() && crate::text::char_is_whitespace(chars[i])
        invariant
            i <= chars@.len(),
            trim_start_seq(chars@) == trim_start_seq(chars@.skip(i as int)),
        decreases chars@.len() - i,
    {
        assert(chars@.skip(i as int).drop_first() =~= chars@.skip(i + 1));
        i = i + 1;
    }
    let mut rest: Vec<char> = Vec::new();
    for j in i..chars.len()
        invariant
            i <= chars@.len(),
            rest@ == chars@.subrange(i as int, j as int),
    {
        rest.push(chars[j]);
        assert(rest@ =~= chars@.subrange(i as int, j + 1));
    }
    assert(rest@ =~= chars@.skip(i as int));
    has_fence(&rest)
}

/// Strips an accidental Markdown code fence around model output before
/// strict schema parsing.
pub fn strip_markdown_fences(raw: &str) -> (r: String)
    ensures
        r@ == stripped_fences(raw@),
{
    let trimmed = trim(raw);
    let chars = chars_of(trimmed.as_str());
    if !has_fence(&chars) {
        return trimmed;
    }
    let lines = split_lines(&chars);
    let ghost ls = strs(lines@);
    let n = lines.len();
    let lo: usize = if n > 0 && is_fence_line(lines[0].as_str()) {
        1
    } else {
        0
    };
    let hi: usize = if n > lo && is_fence_line(lines[n - 1].as_str()) {
        n - 1
    } else {
        n
    };
    let mut kept: Vec<String> = Vec::new();
    for k in lo..hi
        invariant
            lo <= hi <= n,
            n == lines@.len(),
            strs(kept@) == ls.subrange(lo as int, k as int),
            ls == strs(lines@),
    {
        let ghost before = kept@;
        let line = lines[k].clone();
        assert(line@ == ls[k as int]);
        kept.push(line);
        assert(strs(kept@) =~= strs(before).push(ls[k as int]));
        assert(strs(kept@) =~= ls.subrange(lo as int, k + 1));
    }
    proof {
        let a = if ls.len() > 0 && fence_line(ls[0]) {
            ls.drop_first()
        } else {
            ls
        };
        assert(a =~= ls.subrange(lo as int, n as int));
        if a.len() > 0 {
            assert(a.last() == ls[n - 1]);
        }
        let b = if a.len() > 0 && fence_line(a.last()) {
            a.drop_last()
        } else {
            a
        };
        assert(b =~= ls.subrange(lo as int, hi as int));
    }
    let joined = join_strings(&kept, "\n");
    trim(joined.as_str())
}

/// The text of one content block: a string, or an object's `text` string.
pub open spec fn block_text(item: JsonValue) -> Option<Seq<char>> {
    match item {
        JsonValue::String(t) => Some(t@),
        JsonValue::Object(_) => match get_member(item, "text"@) {
            Some(JsonValue::String(t)) => Some(t@),
            _ => None,
        },
        _ => None,
    }
}

/// The texts of the content blocks that have one, in order.
pub open spec fn block_texts(items: Seq<JsonValue>) -> Seq<Seq<char>>
    decreases items.len(),
{
    if items.len() == 0 {
        Seq::empty()
    } else {
        block_texts(items.drop_last()) + match block_text(items.last()) {
            Some(t) => seq![t],
            None => Seq::empty(),
        }
    }
}

/// Message content as plain text: a string as is, the texts of a block
/// array joined by line feeds, an object's `text` string, or nothing.
pub open spec fn content_text(content: JsonValue) -> Seq<char> {
    match content {
        JsonValue::String(t) => t@,
        JsonValue::Array(items) => join(block_texts(items@), "\n"@),
        JsonValue::Object(_) => match get_member(content, "text"@) {
            Some(JsonValue::String(t)) => t@,
            _ => Seq::empty(),
        },
        _ => Seq::empty(),
    }
}

fn block_text_of(item: &JsonValue) -> (r: Option<String>)
    ensures
        match r {
            Some(t) => block_text(*item) == Some(t@),
            None => block_text(*item) is None,
        },
{
    match item {
        JsonValue::String(t) => Some(t.clone()),
        JsonValue::Object(_) => match item.get("text") {
            Some(v) => match v.as_str() {
                Some(t) => Some(String::from_str(t)),
                None => None,
            },
            None => None,
        },
        _ => None,
    }
}

/// Normalizes OpenAI-compatible message content into plain text, so
/// downstream JSON parsing is provider-agnostic. Unknown shapes give empty
/// text, which reads as an empty reply.
pub fn extract_text_content(content: &JsonValue) -> (r: String)
    ensures
        r@ == content_text(*content),
{
    match content {
        JsonValue::String(text) => text.clone(),
        JsonValue::Array(items) => {
            let mut texts: Vec<String> = Vec::new();
            for i in 0..items.len()
                invariant
                    strs(texts@) == block_texts(items@.take(i as int)),
            {
                assert(items@.take(i + 1).drop_last() =~= items@.take(i as int));
                let ghost before = texts@;
                match block_text_of(&items[i]) {
                    Some(t) => {
                        texts.push(t);
                        assert(strs(texts@) =~= strs(before).push(block_text(items@[i as int])->0));
                    },
                    None => {},
                }
                assert(strs(texts@) =~= block_texts(items@.take(i + 1)));
            }
            assert(items@.take(items@.len() as int) =~= items@);
            join_strings(&texts, "\n")
        },
        JsonValue::Object(_) => match content.get("text") {
            Some(v) => match v.as_str() {
                Some(t) => String::from_str(t),
                None => String::new(),
            },
            None => String::new(),
        },
        _ => String::new(),
    }
}

/// The reply text of a chat completion ready for schema parsing: the
/// trimmed content with any code fence removed; empty content is an
/// `EmptyModelResponse`.
pub open spec fn reply_text(content: Seq<char>) -> Result<Seq<char>, ()> {
    if trim_seq(content).len() == 0 {
        Err(())
    } else {
        Ok(stripped_fences(trim_seq(content)))
    }
}

/// Prepares a chat reply's content (absent content counts as empty).
pub fn chat_reply_text(content: Option<&str>) -> (r: Result<String, LlmServiceError>)
    ensures
        match r {
            Ok(t) => reply_text(opt_content(content)) == Ok::<Seq<char>, ()>(t@),
            Err(e) => reply_text(opt_content(content)) is Err && e is EmptyModelResponse,
        },
{
    let raw = match content {
        Some(c) => c,
        None => "",
    };
    proof {
        reveal_strlit("");
    }
    let trimmed = trim(raw);
    if trimmed.unicode_len() == 0 {
        return Err(LlmServiceError::EmptyModelResponse);
    }
    Ok(strip_markdown_fences(trimmed.as_str()))
}

/// The content of an optional reply; empty when absent.
pub open spec fn opt_content(content: Option<&str>) -> Seq<char> {
    match content {
        Some(c) => c@,
        None => Seq::empty(),
    }
}

/// The content of the first choice that carries a message.
pub open spec fn first_message(messages: Seq<Option<JsonValue>>) -> Option<JsonValue>
    decreases messages.len(),
{
    if messages.len() == 0 {
        None
    } else {
        match messages[0] {
            Some(m) => Some(m),
            None => first_message(messages.drop_first()),
        }
    }
}

/// Prepares an OpenAI-compatible reply from the message content of each
/// choice: the first present content, as plain text.
pub fn choices_reply_text(messages: &Vec<Option<JsonValue>>) -> (r: Result<String, LlmServiceError>)
    ensures
        match r {
            Ok(t) => reply_text(choices_content(messages@)) == Ok::<Seq<char>, ()>(t@),
            Err(e) => reply_text(choices_content(messages@)) is Err && e is EmptyModelResponse,
        },
{
    let mut i: usize = 0;
    assert(messages@.skip(0) =~= messages@);
    while i < messages.len()
        invariant
            i <= messages@.len(),
            first_message(messages@) == first_message(messages@.skip(i as int)),
        decreases messages@.len() - i,
    {
        assert(messages@.skip(i as int)[0] == messages@[i as int]);
        assert(messages@.skip(i as int).drop_first() =~= messages@.skip(i + 1));
        match &messages[i] {
            Some(m) => {
                let text = extract_text_content(m);
                return chat_reply_text(Some(text.as_str()));
            },
            None => {},
        }
        i = i + 1;
    }
    chat_reply_text(None)
}

/// The text content of an OpenAI-compatible reply.
pub open spec fn choices_content(messages: Seq<Option<JsonValue>>) -> Seq<char> {
    match first_message(messages) {
        Some(m) => content_text(m),
        None => Seq::empty(),
    }
}

// =====================================================================
// Installed models
// =====================================================================
/// The names that are not blank, trimmed, in order.
pub open spec fn trimmed_names(names: Seq<Seq<char>>) -> Seq<Seq<char>>
    decreases names.len(),
{
    if names.len() == 0 {
        Seq::empty()
    } else {
        trimmed_names(names.drop_last()) + if trim_seq(names.last()).len() > 0 {
            seq![trim_seq(names.last())]
        } else {
            Seq::empty()
        }
    }
}

/// ASCII case-insensitive equality.
pub open spec fn ascii_eq_ignore_case(a: Seq<char>, b: Seq<char>) -> bool {
    a.len() == b.len() && forall|i: int| 0 <= i < a.len() ==> ascii_lower(#[trigger] a[i]) == ascii_lower(b[i])
}

/// `s` contains `f` as a contiguous part.
pub open spec fn contains_seq(s: Seq<char>, f: Seq<char>) -> bool {
    exists|i: int| 0 <= i && i + f.len() <= s.len() && #[trigger] s.subrange(i, i + f.len()) == f
}

/// The names whose lower-case form contains the filter; all of them when
/// the filter is empty.
pub open spec fn matching_names(names: Seq<Seq<char>>, filter: Seq<char>) -> Seq<Seq<char>>
    decreases names.len(),
{
    if names.len() == 0 {
        Seq::empty()
    } else {
        matching_names(names.drop_last(), filter) + if filter.len() == 0 || contains_seq(
            lowercase(names.last()),
            filter,
        ) {
            seq![names.last()]
        } else {
            Seq::empty()
        }
    }
}

/// Inserts `x` into a list ordered by lower-case form, after the entries
/// whose form is not greater (so equal forms keep their order).
pub open spec fn insert_by_lower(sorted: Seq<Seq<char>>, x: Seq<char>) -> Seq<Seq<char>>
    decreases sorted.len(),
{
    if sorted.len() == 0 {
        seq![x]
    } else if seq_lt(lowercase(x), lowercase(sorted[0])) {
        seq![x] + sorted
    } else {
        seq![sorted[0]] + insert_by_lower(sorted.drop_first(), x)
    }
}

/// A stable sort by lower-case form (`sort_by_key` on `to_lowercase`).
pub open spec fn sort_by_lower(s: Seq<Seq<char>>) -> Seq<Seq<char>>
    decreases s.len(),
{
    if s.len() == 0 {
        Seq::empty()
    } else {
        insert_by_lower(sort_by_lower(s.drop_last()), s.last())
    }
}

/// The list without repeats of the element just before (`Vec::dedup`).
pub open spec fn dedup_adjacent(s: Seq<Seq<char>>) -> Seq<Seq<char>>
    decreases s.len(),
{
    if s.len() <= 1 {
        s
    } else if s.last() == s[s.len() - 2] {
        dedup_adjacent(s.drop_last())
    } else {
        dedup_adjacent(s.drop_last()).push(s.last())
    }
}

/// The models a provider lists for a request: when a model is requested,
/// it must be among the names (ignoring ASCII case), else the error names
/// it; the names containing the request (by lower-case form) are sorted by
/// lower-case form and exact repeats next to each other dropped.
pub open spec fn listed_models(names: Seq<Seq<char>>, model_name: Option<Seq<char>>) -> Result<Seq<Seq<char>>, Seq<char>> {
    let requested = requested_model(model_name);
    if requested.len() > 0 && !offers_model(trimmed_names(names), requested) {
        Err(requested)
    } else {
        Ok(dedup_adjacent(sort_by_lower(matching_names(trimmed_names(names), lowercase(requested)))))
    }
}

/// The trimmed requested model; empty when none is requested.
pub open spec fn requested_model(model_name: Option<Seq<char>>) -> Seq<char> {
    match model_name {
        Some(m) => trim_seq(m),
        None => Seq::empty(),
    }
}

/// Some name equals the model, ignoring ASCII case.
pub open spec fn offers_model(names: Seq<Seq<char>>, model: Seq<char>) -> bool {
    exists|i: int| 0 <= i < names.len() && #[trigger] ascii_eq_ignore_case(names[i], model)
}

fn eq_ignore_ascii_case(a: &str, b: &str) -> (r: bool)
    ensures
        r == ascii_eq_ignore_case(a@, b@),
{
    let ca = chars_of(a);
    let cb = chars_of(b);
    if ca.len() != cb.len() {
        return false;
    }
    for i in 0..ca.len()
        invariant
            ca@ == a@,
            cb@ == b@,
            ca@.len() == cb@.len(),
            forall|j: int| 0 <= j < i ==> ascii_lower(#[trigger] ca@[j]) == ascii_lower(cb@[j]),
    {
        let x = ca[i];
        let y = cb[i];
        let lx = if 'A' <= x && x <= 'Z' {
            ((x as u32) + 32) as u8 as char
        } else {
            x
        };
        let ly = if 'A' <= y && y <= 'Z' {
            ((y as u32) + 32) as u8 as char
        } else {
            y
        };
        assert(lx == ascii_lower(x) && ly == ascii_lower(y));
        if lx != ly {
            assert(ascii_lower(ca@[i as int]) != ascii_lower(cb@[i as int]));
            return false;
        }
    }
    true
}

fn contains_chars(s: &Vec<char>, f: &Vec<char>) -> (r: bool)
    ensures
        r == contains_seq(s@, f@),
{
    if f.len() > s.len() {
        return false;
    }
    if f.len() == 0 {
        assert(s@.subrange(0, 0 + f@.len() as int) =~= f@);
        return true;
    }
    let last = s.len() - f.len();
    let mut i: usize = 0;
    while i <= last
        invariant
            last == s@.len() - f@.len(),
            0 < f@.len() <= s@.len(),
            s@.len() == s.len(),
            forall|k: int| 0 <= k < i ==> #[trigger] s@.subrange(k, k + f@.len()) != f@,
        decreases last + 1 - i,
    {
        let mut j: usize = 0;
        let mut same = true;
        while j < f.len()
            invariant
                i <= last,
                last == s@.len() - f@.len(),
                0 < f@.len() <= s@.len(),
                s@.len() == s.len(),
                j <= f@.len(),
                same == (forall|t: int| 0 <= t < j ==> s@[i + t] == f@[t]),
            decreases f@.len() - j,
        {
            if s[i + j] != f[j] {
                same = false;
            }
            j = j + 1;
        }
        if same {
            assert(s@.subrange(i as int, i + f@.len()) =~= f@);
            return true;
        }
        assert(s@.subrange(i as int, i + f@.len()) != f@) by {
            let t = choose|t: int| 0 <= t < f@.len() && s@[i + t] != f@[t];
            assert(s@.subrange(i as int, i + f@.len())[t] == s@[i + t]);
        }
        i = i + 1;
    }
    proof {
        if contains_seq(s@, f@) {
            let k = choose|k: int| 0 <= k && k + f@.len() <= s@.len() && #[trigger] s@.subrange(k, k + f@.len()) == f@;
        }
    }
    false
}

fn lower_lt(a: &str, b: &str) -> (r: bool)
    ensures
        r == seq_lt(lowercase(a@), lowercase(b@)),
{
    let la = to_lowercase(a);
    let lb = to_lowercase(b);
    crate::text::str_lt(la.as_str(), lb.as_str())
}

fn insert_sorted_by_lower(sorted: &mut Vec<String>, x: String)
    ensures
        strs(final(sorted)@) == insert_by_lower(strs(old(sorted)@), x@),
{
    let ghost s0 = strs(sorted@);
    let mut p: usize = 0;
    assert(s0.skip(0) =~= s0);
    while p < sorted.len() && !lower_lt(x.as_str(), sorted[p].as_str())
        invariant
            p <= sorted@.len(),
            s0 == strs(sorted@),
            insert_by_lower(s0, x@) == s0.take(p as int) + insert_by_lower(s0.skip(p as int), x@),
        decreases sorted@.len() - p,
    {
        let ghost rest = s0.skip(p as int);
        assert(rest[0] == s0[p as int]);
        assert(rest.drop_first() =~= s0.skip(p + 1));
        assert(s0.take(p as int) + seq![s0[p as int]] =~= s0.take(p + 1));
        assert(s0.take(p as int) + (seq![rest[0]] + insert_by_lower(rest.drop_first(), x@)) =~= s0.take(p + 1)
            + insert_by_lower(s0.skip(p + 1), x@));
        p = p + 1;
    }
    let ghost rest = s0.skip(p as int);
    proof {
        if p < s0.len() {
            assert(rest[0] == s0[p as int]);
            assert(insert_by_lower(rest, x@) == seq![x@] + rest);
        } else {
            assert(rest =~= Seq::<Seq<char>>::empty());
        }
    }
    sorted.insert(p, x);
    assert(strs(sorted@) =~= s0.take(p as int) + (seq![x@] + rest));
}

proof fn lemma_trim_empty_seq()
    ensures
        trim_seq(Seq::<char>::empty()) == Seq::<char>::empty(),
{
    reveal_with_fuel(trim_start_seq, 2);
    reveal_with_fuel(crate::text::trim_end_seq, 2);
}

/// The models a provider offers for a request, from the names it listed.
#[verifier::rlimit(40)]
pub fn select_ollama_models(names: &Vec<String>, model_name: Option<&str>) -> (r: Result<Vec<String>, LlmServiceError>)
    ensures
        match listed_models(strs(names@), opt_view(model_name)) {
            Ok(ms) => r matches Ok(v) && strs(v@) == ms,
            Err(m) => r matches Err(LlmServiceError::ModelNotFound { model }) && model@ == m,
        },
{
    let raw = match model_name {
        Some(m) => m,
        None => "",
    };
    proof {
        reveal_strlit("");
    }
    let requested = trim(raw);
    proof {
        if model_name is None {
            assert(raw@ =~= Seq::<char>::empty());
            lemma_trim_empty_seq();
        }
    }
    assert(requested@ == requested_model(opt_view(model_name)));
    let filter = to_lowercase(requested.as_str());
    let filter_chars = chars_of(filter.as_str());
    let ghost ns = strs(names@);
    let mut all: Vec<String> = Vec::new();
    for i in 0..names.len()
        invariant
            ns == strs(names@),
            strs(all@) == trimmed_names(ns.take(i as int)),
    {
        assert(ns.take(i + 1).drop_last() =~= ns.take(i as int));
        assert(ns.take(i + 1).last() == names@[i as int]@);
        let t = trim(names[i].as_str());
        let ghost before = all@;
        if t.unicode_len() > 0 {
            all.push(t);
            assert(strs(all@) =~= strs(before).push(t@));
        }
    }
    assert(ns.take(ns.len() as int) =~= ns);
    let ghost alls = strs(all@);
    if requested.unicode_len() > 0 {
        let mut found = false;
        for i in 0..all.len()
            invariant
                alls == strs(all@),
                found == (exists|k: int| 0 <= k < i && #[trigger] ascii_eq_ignore_case(alls[k], requested@)),
        {
            if !found && eq_ignore_ascii_case(all[i].as_str(), requested.as_str()) {
                found = true;
            }
            proof {
                if ascii_eq_ignore_case(alls[i as int], requested@) {
                    assert(exists|k: int| 0 <= k < i + 1 && #[trigger] ascii_eq_ignore_case(alls[k], requested@));
                }
                if found {
                    let k = choose|k: int| 0 <= k < i + 1 && #[trigger] ascii_eq_ignore_case(alls[k], requested@);
                }
            }
        }
        if !found {
            assert(!offers_model(alls, requested@));
            return Err(LlmServiceError::ModelNotFound { model: requested });
        }
    }
    let mut matching: Vec<String> = Vec::new();
    for i in 0..all.len()
        invariant
            alls == strs(all@),
            filter_chars@ == lowercase(requested@),
            strs(matching@) == matching_names(alls.take(i as int), lowercase(requested@)),
    {
        assert(alls.take(i + 1).drop_last() =~= alls.take(i as int));
        assert(alls.take(i + 1).last() == all@[i as int]@);
        let keep = if filter_chars.len() == 0 {
            true
        } else {
            let lower = to_lowercase(all[i].as_str());
            let lower_chars = chars_of(lower.as_str());
            contains_chars(&lower_chars, &filter_chars)
        };
        let ghost before = matching@;
        if keep {
            matching.push(all[i].clone());
            assert(strs(matching@) =~= strs(before).push(alls[i as int]));
        }
    }
    assert(alls.take(alls.len() as int) =~= alls);
    let ghost ms = strs(matching@);
    let mut sorted: Vec<String> = Vec::new();
    for i in 0..matching.len()
        invariant
            ms == strs(matching@),
            strs(sorted@) == sort_by_lower(ms.take(i as int)),
    {
        assert(ms.take(i + 1).drop_last() =~= ms.take(i as int));
        assert(ms.take(i + 1).last() == matching@[i as int]@);
        insert_sorted_by_lower(&mut sorted, matching[i].clone());
    }
    assert(ms.take(ms.len() as int) =~= ms);
    let ghost ss = strs(sorted@);
    let mut models: Vec<String> = Vec::new();
    for i in 0..sorted.len()
        invariant
            ss == strs(sorted@),
            strs(models@) == dedup_adjacent(ss.take(i as int)),
            i > 0 ==> models@.len() > 0 && models@.last()@ == ss[i - 1],
    {
        let ghost prefix = ss.take(i + 1);
        assert(prefix.drop_last() =~= ss.take(i as int));
        assert(prefix.last() == sorted@[i as int]@);
        let ghost before = models@;
        if i == 0 || !str_eq(sorted[i].as_str(), sorted[i - 1].as_str()) {
            models.push(sorted[i].clone());
            proof {
                if i > 0 {
                    assert(prefix[prefix.len() - 2] == ss[i - 1]);
                } else {
                    assert(prefix =~= seq![ss[0]]);
                }
            }
            assert(strs(models@) =~= strs(before).push(ss[i as int]));
        } else {
            assert(prefix[prefix.len() - 2] == ss[i - 1]);
        }
    }
    assert(ss.take(ss.len() as int) =~= ss);
    assert(alls == trimmed_names(strs(names@)));
    assert(ms == matching_names(alls, lowercase(requested@)));
    assert(ss == sort_by_lower(ms));
    assert(strs(models@) == dedup_adjacent(ss));
    assert(requested@.len() > 0 ==> (exists|i: int| 0 <= i < alls.len() && #[trigger] ascii_eq_ignore_case(alls[i], requested@)));
    assert(requested@.len() > 0 ==> offers_model(alls, requested@));
    Ok(models)
}

} // verus!
