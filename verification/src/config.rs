//! The gateway's configuration model and its validation.

use vstd::prelude::*;
use vstd::string::StringExecFns;

verus! {

#[verifier::external_type_specification]
#[verifier::external_body]
pub struct ExIoError(std::io::Error);

#[verifier::external_type_specification]
#[verifier::external_body]
pub struct ExTomlError(toml::de::Error);

/// The whole configuration.
#[derive(Debug, Clone)]
pub struct GatewayConfig {
    pub server: ServerConfig,
    pub logging: LoggingConfig,
}

/// Where the gateway listens.
#[derive(Debug, Clone)]
pub struct ServerConfig {
    pub listen: String,
    pub admin_listen: String,
    pub workers: usize,
}

/// How the gateway logs.
#[derive(Debug, Clone)]
pub struct LoggingConfig {
    pub level: String,
    /// "json" or "pretty".
    pub format: String,
}

impl Default for ServerConfig {
    fn default() -> (c: Self)
        ensures
            c.listen@ == "0.0.0.0:8080"@,
            c.admin_listen@ == "127.0.0.1:9090"@,
            c.workers == 0,
    {
        ServerConfig {
            listen: String::from_str("0.0.0.0:8080"),
            admin_listen: String::from_str("127.0.0.1:9090"),
            workers: 0,
        }
    }
}

impl Default for LoggingConfig {
    fn default() -> (c: Self)
        ensures
            c.level@ == "info"@,
            c.format@ == "pretty"@,
    {
        LoggingConfig { level: String::from_str("info"), format: String::from_str("pretty") }
    }
}

impl Default for GatewayConfig {
    fn default() -> (c: Self)
        ensures
            c.server.listen@ == "0.0.0.0:8080"@,
            c.server.admin_listen@ == "127.0.0.1:9090"@,
            c.server.workers == 0,
            c.logging.level@ == "info"@,
            c.logging.format@ == "pretty"@,
    {
        GatewayConfig { server: ServerConfig::default(), logging: LoggingConfig::default() }
    }
}

/// Why a configuration could not be had.
#[derive(Debug)]
pub enum ConfigError {
    /// The file could not be read.
    Io(std::io::Error),
    /// The file is not a valid TOML configuration.
    Parse(toml::de::Error),
    /// The configuration breaks a rule; the text says which.
    Validation(String),
}

/// The message of the validation error for an empty listen address.
pub open spec fn empty_listen_message() -> Seq<char> {
    "server.listen cannot be empty"@
}

/// The message of the validation error for an empty admin address.
pub open spec fn empty_admin_listen_message() -> Seq<char> {
    "server.admin_listen cannot be empty"@
}

/// Checks the rules a configuration must follow: both listen addresses are
/// set.  The listen address is checked first.
pub fn validate_config(config: &GatewayConfig) -> (r: Result<(), ConfigError>)
    ensures
        r is Ok <==> (config.server.listen@.len() > 0 && config.server.admin_listen@.len() > 0),
        config.server.listen@.len() == 0 ==> (r matches Err(ConfigError::Validation(m))
            && m@ == empty_listen_message()),
        config.server.listen@.len() > 0 && config.server.admin_listen@.len() == 0 ==> (r matches Err(
            ConfigError::Validation(m),
        ) && m@ == empty_admin_listen_message()),
{
    if config.server.listen.as_str().is_empty() {
        return Err(ConfigError::Validation(String::from_str("server.listen cannot be empty")));
    }
    if config.server.admin_listen.as_str().is_empty() {
        return Err(
            ConfigError::Validation(String::from_str("server.admin_listen cannot be empty")),
        );
    }
    Ok(())
}

/// Finishes loading a configuration once the file was read and parsed: a
/// parse error is passed on as such; a parsed configuration is checked, as
/// `validate_config` says, and handed back when it passes.
pub fn finish_load(parsed: Result<GatewayConfig, toml::de::Error>) -> (r: Result<GatewayConfig, ConfigError>)
    ensures
        parsed matches Err(e) ==> r matches Err(ConfigError::Parse(e2)) && e2 == e,
        parsed matches Ok(c) ==> {
            &&& r is Ok <==> (c.server.listen@.len() > 0 && c.server.admin_listen@.len() > 0)
            &&& r matches Ok(d) ==> d == c
            &&& c.server.listen@.len() == 0 ==> (r matches Err(ConfigError::Validation(m))
                && m@ == empty_listen_message())
            &&& c.server.listen@.len() > 0 && c.server.admin_listen@.len() == 0 ==> (r matches Err(
                ConfigError::Validation(m),
            ) && m@ == empty_admin_listen_message())
        },
{
    match parsed {
        Err(e) => Err(ConfigError::Parse(e)),
        Ok(config) => match validate_config(&config) {
            Ok(()) => Ok(config),
            Err(e) => Err(e),
        },
    }
}

} // verus!
