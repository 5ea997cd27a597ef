//! Plugin configuration data: what a plugin declares about itself, its
//! listeners, its tags, and the domains it talks to.

use vstd::prelude::*;
use std::collections::HashMap;
use std::time::Duration;

verus! {

/// Top-level description of one plugin.
#[derive(Clone, Debug)]
pub struct ConfigPlugin {
    pub name: String,
    pub version: String,
    pub language: PluginLanguage,
    pub tags: HashMap<String, ConfigTags>,
    pub listeners: HashMap<String, ConfigListener>,
    pub domains: HashMap<String, ConfigDomain>,
}

/// Language a plugin is written in.
#[derive(Clone, Debug)]
pub enum PluginLanguage {
    Rust,
    AssemblyScript,
}

/// Tag declaration of a plugin.
#[derive(Debug, Clone)]
pub struct ConfigTags {
    pub name: Option<String>,
    pub tags: Option<HashMap<String, String>>,
}

/// One listener a plugin registers, with its trigger configuration.
#[derive(Debug, Clone)]
pub struct ConfigListener {
    pub form: bool,
    pub config: ConfigListenerConfig,
}

/// The kinds of triggers a listener can react to.
#[derive(Debug, Clone)]
pub enum ConfigListenerConfig {
    Manual(ConfigManual),
    Upload(ConfigUpload),
    Cron(ConfigCron),
    Email,
    Scraper(ConfigScraper),
    Request(ConfigResponse),
    Created(ConfigRecordChanged),
    Updated(ConfigRecordChanged),
    Deleted(ConfigRecordChanged),
}

/// A listener run by hand.
#[derive(Debug, Clone)]
pub struct ConfigManual {
    pub model: String,
}

/// A listener run on a schedule.
#[derive(Debug, Clone)]
pub struct ConfigCron {
    pub model: String,
    pub schedule: String,
    pub after: Option<String>,
    pub until: Option<String>,
}

/// A listener fed by a scraper.
#[derive(Debug, Clone)]
pub struct ConfigScraper {
    pub model: String,
    pub actor_id: String,
}

/// A listener fed by uploaded files.
#[derive(Debug, Clone)]
pub struct ConfigUpload {
    pub model: String,
    pub file_types: Vec<String>,
}

/// A listener that answers requests.
#[derive(Debug, Clone)]
pub struct ConfigResponse {
    pub body: String,
    pub metadata: String,
}

/// A listener that reacts to record changes.
#[derive(Debug, Clone)]
pub struct ConfigRecordChanged {
    pub model: String,
    pub record: String,
}

/// The metadata type name used when a response declares none.
fn default_type() -> (r: String)
    ensures
        r@ == "()"@,
{
    String::from_str("()")
}

impl Default for ConfigResponse {
    /// A response with an empty body and the default metadata type.
    fn default() -> (r: Self)
        ensures
            r.body@.len() == 0,
            r.metadata@ == "()"@,
    {
        ConfigResponse { body: String::new(), metadata: default_type() }
    }
}

/// A domain a plugin talks to, with its authentication and rate limit.
#[derive(Debug, Clone)]
pub struct ConfigDomain {
    pub name: Option<String>,
    pub environments: HashMap<String, String>,
    pub headers: HashMap<String, String>,
    pub auth: ConfigDomainAuth,
    pub rate_limit: Option<ConfigDomainRateLimit>,
}

/// Relies on `Duration::clone`: `Duration` is a plain `Copy` value, so its
/// clone is the value itself.
pub assume_specification[ <Duration as Clone>::clone ](d: &Duration) -> (r: Duration)
    ensures
        r == *d,
;

/// How many requests may go to a domain in a span of time.
#[derive(Debug, Clone)]
pub struct ConfigDomainRateLimit {
    pub number: i64,
    pub duration: Duration,
}

/// How requests to a domain authenticate.
#[derive(Debug, Clone)]
pub enum ConfigDomainAuth {
    OAuth2 { auth_url: String, token_url: String, scopes: Vec<String> },
    Token,
}

} // verus!
