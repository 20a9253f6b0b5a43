//! The settings of the HTTP client for outbound calls.

use vstd::prelude::*;
use crate::config::RouterConfig;
use crate::text::joined;

verus! {

/// How the HTTP client for outbound calls is set up. Times are in seconds.
#[derive(Debug)]
pub struct HttpClientSettings {
    pub timeout_secs: u64,
    pub pool_max_idle_per_host: usize,
    pub pool_idle_timeout_secs: u64,
    pub connect_timeout_secs: u64,
    pub tcp_keepalive_secs: u64,
    pub user_agent: String,
    pub brotli: bool,
    pub gzip: bool,
    pub deflate: bool,
}

/// The settings of the HTTP client: the request timeout and the pool size of
/// the configuration, idle connections kept for 90 seconds, 10 seconds to
/// connect, a keep-alive every 60 seconds, all three compressions, and a user
/// agent that names the gateway and its version.
pub fn http_client_settings(config: &RouterConfig, version: &str) -> (settings: HttpClientSettings)
    ensures
        settings.timeout_secs == config.server.request_timeout,
        settings.pool_max_idle_per_host == config.server.connection_pool_size,
        settings.pool_idle_timeout_secs == 90,
        settings.connect_timeout_secs == 10,
        settings.tcp_keepalive_secs == 60,
        settings.user_agent@ == "llm-router-gateway/"@ + version@,
        settings.brotli && settings.gzip && settings.deflate,
{
    HttpClientSettings {
        timeout_secs: config.server.request_timeout,
        pool_max_idle_per_host: config.server.connection_pool_size,
        pool_idle_timeout_secs: 90,
        connect_timeout_secs: 10,
        tcp_keepalive_secs: 60,
        user_agent: joined("llm-router-gateway/", version),
        brotli: true,
        gzip: true,
        deflate: true,
    }
}

} // verus!
