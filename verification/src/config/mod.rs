pub mod validate;

use vstd::prelude::*;

use crate::policy::rules::Rule;

verus! {

/// The gateway's configuration.
#[derive(Debug)]
pub struct Config {
    pub rules: Vec<Rule>,
    pub wasm_rules: Option<Vec<WasmRuleConfig>>,
    pub threat_feeds: Option<Vec<ThreatFeedConfig>>,
    pub users: Option<Vec<UserConfig>>,
    /// When false (the default), `X-Forwarded-For` / `X-Real-IP` are ignored and the TCP
    /// peer address is used as the client IP.
    pub trust_proxy_headers: bool,
    /// Maximum allowed request body size in bytes.
    pub max_body_bytes: usize,
}

/// A WebAssembly rule module to load.
#[derive(Debug, Clone)]
pub struct WasmRuleConfig {
    pub name: String,
    pub path: String,
    pub priority: u32,
}

/// A threat feed to poll.
#[derive(Debug, Clone)]
pub struct ThreatFeedConfig {
    pub name: String,
    pub url: String,
    pub refresh_secs: u64,
    pub feed_type: String,
}

/// A user defined in the configuration.
#[derive(Debug, Clone)]
pub struct UserConfig {
    pub username: String,
    pub password_hash: String,
    pub role: String,
}

/// The mathematical content of a [`UserConfig`].
pub struct UserConfigView {
    pub username: Seq<char>,
    pub password_hash: Seq<char>,
    pub role: Seq<char>,
}

impl View for UserConfig {
    type V = UserConfigView;

    open spec fn view(&self) -> UserConfigView {
        UserConfigView {
            username: self.username@,
            password_hash: self.password_hash@,
            role: self.role@,
        }
    }
}

/// The views of a list of user configurations.
pub open spec fn user_configs(v: Seq<UserConfig>) -> Seq<UserConfigView> {
    v.map_values(|u: UserConfig| u@)
}

/// The views of an optional list of user configurations.
pub open spec fn opt_user_configs(o: Option<Vec<UserConfig>>) -> Option<Seq<UserConfigView>> {
    match o {
        Some(v) => Some(user_configs(v@)),
        None => None,
    }
}

/// Number of bytes a request body may carry when the configuration sets no limit.
pub fn default_max_body_bytes() -> (n: usize)
    ensures
        n == 10 * 1024 * 1024,
{
    10 * 1024 * 1024
}

} // verus!
