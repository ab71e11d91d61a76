//! Provider configuration resolution: the pure rules that turn overrides,
//! a user configuration file, and environment readings into one model
//! configuration. Reading the environment and the file is the caller's part.

use vstd::prelude::*;
use crate::text::trim_spec;
use crate::text::trim_str;
use crate::text::ascii_lower;
use crate::text::ascii_lower_str;
use crate::text::is_prefix;
use crate::text::starts_with_chars;
use crate::text::chars_of;
use crate::protocol::ov;
use crate::wire::normalized_opt;
use crate::wire::normalized_option;

verus! {

pub struct LocalModelConfig {
    pub provider_id: String,
    pub provider_name: String,
    pub base_url: String,
    pub wire_api: String,
    pub env_key: String,
    pub api_key: String,
    pub model: String,
    pub tool_daemon_url: String,
    pub tool_agent_id: String,
}

pub struct LocalModelOverrides {
    pub provider_id: Option<String>,
    pub base_url: Option<String>,
    pub model: Option<String>,
    pub env_key: Option<String>,
}

/// One provider's entry of the user configuration file.
pub struct ProviderFileConfig {
    pub name: Option<String>,
    pub base_url: Option<String>,
    pub wire_api: Option<String>,
    pub env_key: Option<String>,
    pub model: Option<String>,
}

pub struct ProviderDefaults {
    pub provider_id: String,
    pub provider_name: String,
    pub base_url: String,
    pub wire_api: String,
    pub env_key: String,
    pub model: String,
}

pub enum ConfigError {
    MissingEnvVar(String),
    ParseConfig { path: String, error: String },
}

/// The provider a trimmed identifier names: the alternate one when asked
/// for by name, the primary one otherwise.
pub open spec fn canonical_provider(pid: Seq<char>) -> Seq<char> {
    if trim_spec(pid) == "crsa"@ {
        "crsa"@
    } else {
        "crsb"@
    }
}

/// The environment variable that carries the provider's key by default.
pub open spec fn default_env_key(pid: Seq<char>) -> Seq<char> {
    if trim_spec(pid) == "crsa"@ {
        "CRS_OAI_KEY1"@
    } else {
        "CRS_OAI_KEY2"@
    }
}

/// The two built-in providers share everything but their id and key name.
pub fn provider_defaults(provider_id: &str) -> (r: ProviderDefaults)
    ensures
        r.provider_id@ == canonical_provider(provider_id@),
        r.provider_name@ == canonical_provider(provider_id@),
        r.env_key@ == default_env_key(provider_id@),
        r.base_url@ == "https://codex.funai.vip/openai"@,
        r.wire_api@ == "responses"@,
        r.model@ == "gpt-5.3-codex"@,
{
    let t = trim_str(provider_id);
    if crate::text::str_eq(t.as_str(), "crsa") {
        ProviderDefaults {
            provider_id: "crsa".to_owned(),
            provider_name: "crsa".to_owned(),
            base_url: "https://codex.funai.vip/openai".to_owned(),
            wire_api: "responses".to_owned(),
            env_key: "CRS_OAI_KEY1".to_owned(),
            model: "gpt-5.3-codex".to_owned(),
        }
    } else {
        ProviderDefaults {
            provider_id: "crsb".to_owned(),
            provider_name: "crsb".to_owned(),
            base_url: "https://codex.funai.vip/openai".to_owned(),
            wire_api: "responses".to_owned(),
            env_key: "CRS_OAI_KEY2".to_owned(),
            model: "gpt-5.3-codex".to_owned(),
        }
    }
}

/// Each non-empty trimmed file entry overrides the matching default.
pub fn apply_file_provider_overrides(
    defaults: &mut ProviderDefaults,
    provider_cfg: Option<&ProviderFileConfig>,
)
    ensures
        final(defaults).provider_id == old(defaults).provider_id,
        match provider_cfg {
            Some(cfg) => {
                &&& final(defaults).provider_name@ == (match normalized_opt(ov(cfg.name)) {
                    Some(v) => v,
                    None => old(defaults).provider_name@,
                })
                &&& final(defaults).base_url@ == (match normalized_opt(ov(cfg.base_url)) {
                    Some(v) => v,
                    None => old(defaults).base_url@,
                })
                &&& final(defaults).wire_api@ == (match normalized_opt(ov(cfg.wire_api)) {
                    Some(v) => v,
                    None => old(defaults).wire_api@,
                })
                &&& final(defaults).env_key@ == (match normalized_opt(ov(cfg.env_key)) {
                    Some(v) => v,
                    None => old(defaults).env_key@,
                })
                &&& final(defaults).model@ == (match normalized_opt(ov(cfg.model)) {
                    Some(v) => v,
                    None => old(defaults).model@,
                })
            },
            None => *final(defaults) == *old(defaults),
        },
{
    let cfg = match provider_cfg {
        Some(cfg) => cfg,
        None => {
            return ;
        },
    };
    match normalized_option(cfg.name.as_ref()) {
        Some(v) => {
            defaults.provider_name = v;
        },
        None => {},
    }
    match normalized_option(cfg.base_url.as_ref()) {
        Some(v) => {
            defaults.base_url = v;
        },
        None => {},
    }
    match normalized_option(cfg.wire_api.as_ref()) {
        Some(v) => {
            defaults.wire_api = v;
        },
        None => {},
    }
    match normalized_option(cfg.env_key.as_ref()) {
        Some(v) => {
            defaults.env_key = v;
        },
        None => {},
    }
    match normalized_option(cfg.model.as_ref()) {
        Some(v) => {
            defaults.model = v;
        },
        None => {},
    }
}

/// Whether a base URL points at a local development endpoint, where a
/// placeholder key substitutes for a missing one.
pub open spec fn is_local_url_spec(base_url: Seq<char>) -> bool {
    ||| is_prefix(ascii_lower(trim_spec(base_url)), "http://127.0.0.1"@)
    ||| is_prefix(ascii_lower(trim_spec(base_url)), "http://localhost"@)
}

pub fn is_local_base_url(base_url: &str) -> (r: bool)
    ensures
        r == is_local_url_spec(base_url@),
{
    let t = trim_str(base_url);
    let n = ascii_lower_str(t.as_str());
    let nv = chars_of(n.as_str());
    let p1 = chars_of("http://127.0.0.1");
    let p2 = chars_of("http://localhost");
    starts_with_chars(&nv, &p1) || starts_with_chars(&nv, &p2)
}

/// The key for a resolved URL: the environment's value when the variable is
/// set; the local placeholder for local URLs; otherwise the error that
/// names the missing variable.
pub fn resolve_api_key(env_key: String, env_value: Option<String>, base_url: &str) -> (r: Result<
    String,
    ConfigError,
>)
    ensures
        match r {
            Ok(key) => match env_value {
                Some(v) => key@ == v@,
                None => is_local_url_spec(base_url@) && key@ == "local-dev-key"@,
            },
            Err(e) => {
                &&& env_value is None
                &&& !is_local_url_spec(base_url@)
                &&& e matches ConfigError::MissingEnvVar(k) && k@ == env_key@
            },
        },
{
    match env_value {
        Some(v) => Ok(v),
        None => {
            if is_local_base_url(base_url) {
                Ok("local-dev-key".to_owned())
            } else {
                Err(ConfigError::MissingEnvVar(env_key))
            }
        },
    }
}

/// What a file entry leaves of one default.
pub open spec fn file_or(file_field: Option<Seq<char>>, dflt: Seq<char>) -> Seq<char> {
    match normalized_opt(file_field) {
        Some(v) => v,
        None => dflt,
    }
}

/// The provider identifier a set of overrides asks for.
pub open spec fn requested_provider(overrides: LocalModelOverrides) -> Seq<char> {
    match overrides.provider_id {
        Some(p) => p@,
        None => "crsb"@,
    }
}

/// The base URL after overrides, the file and the default.
pub open spec fn resolved_base_url(
    overrides: LocalModelOverrides,
    file_base: Option<Seq<char>>,
) -> Seq<char> {
    match overrides.base_url {
        Some(u) => u@,
        None => file_or(file_base, "https://codex.funai.vip/openai"@),
    }
}

/// The key variable after overrides, the file and the default.
pub open spec fn resolved_env_key(
    overrides: LocalModelOverrides,
    file_env_key: Option<Seq<char>>,
) -> Seq<char> {
    match overrides.env_key {
        Some(k) => k@,
        None => file_or(file_env_key, default_env_key(requested_provider(overrides))),
    }
}

/// Assembles the configuration once the caller has read the environment and
/// the user file: overrides beat file entries beat defaults, and the key
/// rule of `resolve_api_key` decides the outcome.
pub fn resolve_local_model_config(
    overrides: LocalModelOverrides,
    file_provider: Option<&ProviderFileConfig>,
    env_api_key: Option<String>,
    tool_daemon_url: String,
    tool_agent_id: String,
) -> (r: Result<LocalModelConfig, ConfigError>)
    ensures
        ({
            let pid = requested_provider(overrides);
            let fname = match file_provider {
                Some(f) => ov(f.name),
                None => None,
            };
            let fbase = match file_provider {
                Some(f) => ov(f.base_url),
                None => None,
            };
            let fwire = match file_provider {
                Some(f) => ov(f.wire_api),
                None => None,
            };
            let fenv = match file_provider {
                Some(f) => ov(f.env_key),
                None => None,
            };
            let fmodel = match file_provider {
                Some(f) => ov(f.model),
                None => None,
            };
            match r {
                Ok(cfg) => {
                    &&& cfg.provider_id@ == canonical_provider(pid)
                    &&& cfg.provider_name@ == file_or(fname, canonical_provider(pid))
                    &&& cfg.base_url@ == resolved_base_url(overrides, fbase)
                    &&& cfg.wire_api@ == file_or(fwire, "responses"@)
                    &&& cfg.env_key@ == resolved_env_key(overrides, fenv)
                    &&& cfg.model@ == (match overrides.model {
                        Some(m) => m@,
                        None => file_or(fmodel, "gpt-5.3-codex"@),
                    })
                    &&& (match env_api_key {
                        Some(v) => cfg.api_key@ == v@,
                        None => is_local_url_spec(cfg.base_url@) && cfg.api_key@
                            == "local-dev-key"@,
                    })
                    &&& cfg.tool_daemon_url@ == tool_daemon_url@
                    &&& cfg.tool_agent_id@ == tool_agent_id@
                },
                Err(e) => {
                    &&& env_api_key is None
                    &&& !is_local_url_spec(resolved_base_url(overrides, fbase))
                    &&& (e matches ConfigError::MissingEnvVar(k) && k@ == resolved_env_key(
                        overrides,
                        fenv,
                    ))
                },
            }
        }),
{
    let provider_id: String = match &overrides.provider_id {
        Some(p) => p.clone(),
        None => "crsb".to_owned(),
    };
    let mut defaults = provider_defaults(provider_id.as_str());
    apply_file_provider_overrides(&mut defaults, file_provider);
    let base_url: String = match overrides.base_url {
        Some(u) => u,
        None => defaults.base_url.clone(),
    };
    let env_key: String = match overrides.env_key {
        Some(k) => k,
        None => defaults.env_key.clone(),
    };
    let api_key = match resolve_api_key(env_key.clone(), env_api_key, base_url.as_str()) {
        Ok(k) => k,
        Err(e) => {
            return Err(e);
        },
    };
    Ok(
        LocalModelConfig {
            provider_id: defaults.provider_id,
            provider_name: defaults.provider_name,
            base_url,
            wire_api: defaults.wire_api,
            env_key,
            api_key,
            model: match overrides.model {
                Some(m) => m,
                None => defaults.model,
            },
            tool_daemon_url,
            tool_agent_id,
        },
    )
}

} // verus!
