//! The configuration snapshot: routing rules and knobs, the overrides that the
//! environment lays over a parsed file, validation, and the store that holds
//! the current snapshot.

use vstd::prelude::*;
use crate::error::ConfigError;
use crate::text::{
    all_digits, chars_of, digits_number, digits_value, find_char, split_on, str_eq, substring,
    trim_bounds, trimmed, trimmed_eq,
};

verus! {

/// Where the server listens and how it treats connections.
#[derive(Debug)]
pub struct ServerConfig {
    pub host: String,
    pub port: u16,
    /// Request timeout in seconds.
    pub request_timeout: u64,
    pub connection_pool_size: usize,
}

pub struct ServerConfigView {
    pub host: Seq<char>,
    pub port: u16,
    pub request_timeout: u64,
    pub connection_pool_size: usize,
}

impl View for ServerConfig {
    type V = ServerConfigView;

    open spec fn view(&self) -> ServerConfigView {
        ServerConfigView {
            host: self.host@,
            port: self.port,
            request_timeout: self.request_timeout,
            connection_pool_size: self.connection_pool_size,
        }
    }
}

/// The token bucket's parameters.
#[derive(Debug, Clone, Copy, PartialEq, Eq, Structural)]
pub struct RateLimitConfig {
    /// Whole requests allowed per second.
    pub requests_per_second: u32,
    pub burst_size: u32,
    /// Whether each peer address gets a bucket of its own.
    pub per_ip: bool,
}

/// Who may call, and how often.
#[derive(Debug)]
pub struct SecurityConfig {
    pub api_keys: Option<Vec<String>>,
    pub rate_limit: Option<RateLimitConfig>,
}

pub struct SecurityConfigView {
    pub api_keys: Option<Seq<Seq<char>>>,
    pub rate_limit: Option<RateLimitConfig>,
}

/// The texts of a list of strings.
pub open spec fn texts(v: Seq<String>) -> Seq<Seq<char>> {
    v.map_values(|s: String| s@)
}

impl View for SecurityConfig {
    type V = SecurityConfigView;

    open spec fn view(&self) -> SecurityConfigView {
        SecurityConfigView {
            api_keys: match self.api_keys {
                Some(keys) => Some(texts(keys@)),
                None => None,
            },
            rate_limit: self.rate_limit,
        }
    }
}

/// How the gateway logs.
#[derive(Debug)]
pub struct ObservabilityConfig {
    pub log_level: String,
    pub json_logging: bool,
}

pub struct ObservabilityConfigView {
    pub log_level: Seq<char>,
    pub json_logging: bool,
}

impl View for ObservabilityConfig {
    type V = ObservabilityConfigView;

    open spec fn view(&self) -> ObservabilityConfigView {
        ObservabilityConfigView { log_level: self.log_level@, json_logging: self.json_logging }
    }
}

/// The response cache's knobs.
#[derive(Debug, Clone, Copy, PartialEq, Eq, Structural)]
pub struct CachingConfig {
    pub enabled: bool,
    pub ttl_seconds: Option<u64>,
    pub max_size: Option<usize>,
}

/// The retry engine's knobs.
#[derive(Debug, Clone, Copy, PartialEq, Eq, Structural)]
pub struct RetryConfig {
    pub max_retries: u32,
    pub initial_backoff_ms: u64,
}

/// The circuit breakers' knobs.
#[derive(Debug, Clone, Copy, PartialEq, Eq, Structural)]
pub struct CircuitBreakerConfig {
    pub enabled: bool,
    pub failure_threshold: usize,
    pub reset_timeout_secs: u64,
}

/// One provider endpoint. Several may share a `name`: they are then peers for
/// load balancing.
#[derive(Debug)]
pub struct Llm {
    pub name: String,
    pub api_base: String,
    pub api_key: String,
    pub model: String,
}

pub struct LlmView {
    pub name: Seq<char>,
    pub api_base: Seq<char>,
    pub api_key: Seq<char>,
    pub model: Seq<char>,
}

impl View for Llm {
    type V = LlmView;

    open spec fn view(&self) -> LlmView {
        LlmView {
            name: self.name@,
            api_base: self.api_base@,
            api_key: self.api_key@,
            model: self.model@,
        }
    }
}

impl Clone for Llm {
    fn clone(&self) -> (copy: Llm)
        ensures
            copy == *self,
    {
        Llm {
            name: self.name.clone(),
            api_base: self.api_base.clone(),
            api_key: self.api_key.clone(),
            model: self.model.clone(),
        }
    }
}

/// The views of a list of endpoints.
pub open spec fn llm_views(llms: Seq<Llm>) -> Seq<LlmView> {
    llms.map_values(|l: Llm| l@)
}

/// A named routing rule: the classifier to ask and the endpoints to choose
/// from.
#[derive(Debug)]
pub struct Policy {
    pub name: String,
    /// The classifier's URL.
    pub url: String,
    pub llms: Vec<Llm>,
}

pub struct PolicyView {
    pub name: Seq<char>,
    pub url: Seq<char>,
    pub llms: Seq<LlmView>,
}

impl View for Policy {
    type V = PolicyView;

    open spec fn view(&self) -> PolicyView {
        PolicyView { name: self.name@, url: self.url@, llms: llm_views(self.llms@) }
    }
}

/// A copy of a list of endpoints.
fn clone_llms(llms: &Vec<Llm>) -> (copy: Vec<Llm>)
    ensures
        copy@ == llms@,
{
    let mut out: Vec<Llm> = Vec::new();
    let mut i: usize = 0;
    while i < llms.len()
        invariant
            i <= llms.len(),
            out@ == llms@.take(i as int),
        decreases llms.len() - i,
    {
        out.push(llms[i].clone());
        proof {
            assert(llms@.take(i + 1) =~= llms@.take(i as int).push(llms@[i as int]));
        }
        i += 1;
    }
    proof {
        assert(llms@.take(llms.len() as int) =~= llms@);
    }
    out
}

/// A copy of a list of strings.
pub fn clone_strings(v: &Vec<String>) -> (copy: Vec<String>)
    ensures
        copy@ == v@,
{
    let mut out: Vec<String> = Vec::new();
    let mut i: usize = 0;
    while i < v.len()
        invariant
            i <= v.len(),
            out@ == v@.take(i as int),
        decreases v.len() - i,
    {
        out.push(v[i].clone());
        proof {
            assert(v@.take(i + 1) =~= v@.take(i as int).push(v@[i as int]));
        }
        i += 1;
    }
    proof {
        assert(v@.take(v.len() as int) =~= v@);
    }
    out
}

impl Clone for Policy {
    fn clone(&self) -> (copy: Policy)
        ensures
            copy@ == self@,
            copy.llms@ == self.llms@,
    {
        Policy { name: self.name.clone(), url: self.url.clone(), llms: clone_llms(&self.llms) }
    }
}

/// The views of a list of policies.
pub open spec fn policy_views(policies: Seq<Policy>) -> Seq<PolicyView> {
    policies.map_values(|p: Policy| p@)
}

/// The whole configuration: one immutable snapshot.
#[derive(Debug)]
pub struct RouterConfig {
    pub server: ServerConfig,
    pub security: SecurityConfig,
    pub observability: ObservabilityConfig,
    pub caching: CachingConfig,
    pub retry: RetryConfig,
    pub circuit_breaker: CircuitBreakerConfig,
    /// `round_robin`, `random` or `first`.
    pub load_balancing_strategy: String,
    pub policies: Vec<Policy>,
}

pub struct RouterConfigView {
    pub server: ServerConfigView,
    pub security: SecurityConfigView,
    pub observability: ObservabilityConfigView,
    pub caching: CachingConfig,
    pub retry: RetryConfig,
    pub circuit_breaker: CircuitBreakerConfig,
    pub load_balancing_strategy: Seq<char>,
    pub policies: Seq<PolicyView>,
}

impl View for RouterConfig {
    type V = RouterConfigView;

    open spec fn view(&self) -> RouterConfigView {
        RouterConfigView {
            server: self.server@,
            security: self.security@,
            observability: self.observability@,
            caching: self.caching,
            retry: self.retry,
            circuit_breaker: self.circuit_breaker,
            load_balancing_strategy: self.load_balancing_strategy@,
            policies: policy_views(self.policies@),
        }
    }
}

/// A copy of a list of policies.
fn clone_policies(policies: &Vec<Policy>) -> (copy: Vec<Policy>)
    ensures
        policy_views(copy@) == policy_views(policies@),
{
    let mut out: Vec<Policy> = Vec::new();
    let mut i: usize = 0;
    while i < policies.len()
        invariant
            i <= policies.len(),
            out@.len() == i,
            forall|k: int| 0 <= k < i ==> out@[k]@ == policies@[k]@,
        decreases policies.len() - i,
    {
        out.push(policies[i].clone());
        i += 1;
    }
    proof {
        assert(policy_views(out@) =~= policy_views(policies@));
    }
    out
}

impl Clone for RouterConfig {
    fn clone(&self) -> (copy: RouterConfig)
        ensures
            copy@ == self@,
    {
        let api_keys = match &self.security.api_keys {
            Some(keys) => Some(clone_strings(keys)),
            None => None,
        };
        RouterConfig {
            server: ServerConfig {
                host: self.server.host.clone(),
                port: self.server.port,
                request_timeout: self.server.request_timeout,
                connection_pool_size: self.server.connection_pool_size,
            },
            security: SecurityConfig { api_keys, rate_limit: self.security.rate_limit },
            observability: ObservabilityConfig {
                log_level: self.observability.log_level.clone(),
                json_logging: self.observability.json_logging,
            },
            caching: self.caching,
            retry: self.retry,
            circuit_breaker: self.circuit_breaker,
            load_balancing_strategy: self.load_balancing_strategy.clone(),
            policies: clone_policies(&self.policies),
        }
    }
}

pub fn default_host() -> (host: String)
    ensures
        host@ == "0.0.0.0"@,
{
    "0.0.0.0".to_owned()
}

pub fn default_port() -> (port: u16)
    ensures
        port == 8084,
{
    8084
}

pub fn default_timeout() -> (seconds: u64)
    ensures
        seconds == 60,
{
    60
}

pub fn default_connection_pool_size() -> (size: usize)
    ensures
        size == 100,
{
    100
}

pub fn default_log_level() -> (level: String)
    ensures
        level@ == "info"@,
{
    "info".to_owned()
}

pub fn default_max_retries() -> (retries: u32)
    ensures
        retries == 2,
{
    2
}

pub fn default_initial_backoff() -> (millis: u64)
    ensures
        millis == 100,
{
    100
}

pub fn default_failure_threshold() -> (failures: usize)
    ensures
        failures == 5,
{
    5
}

pub fn default_reset_timeout() -> (seconds: u64)
    ensures
        seconds == 30,
{
    30
}

pub fn default_true() -> (yes: bool)
    ensures
        yes,
{
    true
}

pub fn default_load_balancing_strategy() -> (name: String)
    ensures
        name@ == "round_robin"@,
{
    "round_robin".to_owned()
}

impl Default for ServerConfig {
    fn default() -> (config: ServerConfig)
        ensures
            config@ == (ServerConfigView {
                host: "0.0.0.0"@,
                port: 8084,
                request_timeout: 60,
                connection_pool_size: 100,
            }),
    {
        ServerConfig {
            host: default_host(),
            port: default_port(),
            request_timeout: default_timeout(),
            connection_pool_size: default_connection_pool_size(),
        }
    }
}

impl Default for SecurityConfig {
    fn default() -> (config: SecurityConfig)
        ensures
            config.api_keys is None,
            config.rate_limit is None,
    {
        SecurityConfig { api_keys: None, rate_limit: None }
    }
}

impl Default for ObservabilityConfig {
    fn default() -> (config: ObservabilityConfig)
        ensures
            config@ == (ObservabilityConfigView { log_level: "info"@, json_logging: false }),
    {
        ObservabilityConfig { log_level: default_log_level(), json_logging: false }
    }
}

impl Default for CachingConfig {
    fn default() -> (config: CachingConfig)
        ensures
            config == (CachingConfig {
                enabled: false,
                ttl_seconds: Some(300u64),
                max_size: Some(1000usize),
            }),
    {
        CachingConfig { enabled: false, ttl_seconds: Some(300), max_size: Some(1000) }
    }
}

impl Default for RetryConfig {
    fn default() -> (config: RetryConfig)
        ensures
            config == (RetryConfig { max_retries: 2, initial_backoff_ms: 100 }),
    {
        RetryConfig {
            max_retries: default_max_retries(),
            initial_backoff_ms: default_initial_backoff(),
        }
    }
}

impl Default for CircuitBreakerConfig {
    fn default() -> (config: CircuitBreakerConfig)
        ensures
            config == (CircuitBreakerConfig {
                enabled: true,
                failure_threshold: 5,
                reset_timeout_secs: 30,
            }),
    {
        CircuitBreakerConfig {
            enabled: default_true(),
            failure_threshold: default_failure_threshold(),
            reset_timeout_secs: default_reset_timeout(),
        }
    }
}

impl Default for RouterConfig {
    fn default() -> (config: RouterConfig)
        ensures
            config.server@ == (ServerConfigView {
                host: "0.0.0.0"@,
                port: 8084,
                request_timeout: 60,
                connection_pool_size: 100,
            }),
            config.security.api_keys is None,
            config.security.rate_limit is None,
            config.observability@ == (ObservabilityConfigView {
                log_level: "info"@,
                json_logging: false,
            }),
            config.caching == (CachingConfig {
                enabled: false,
                ttl_seconds: Some(300u64),
                max_size: Some(1000usize),
            }),
            config.retry == (RetryConfig { max_retries: 2, initial_backoff_ms: 100 }),
            config.circuit_breaker == (CircuitBreakerConfig {
                enabled: true,
                failure_threshold: 5,
                reset_timeout_secs: 30,
            }),
            config.load_balancing_strategy@ == "round_robin"@,
            config.policies@.len() == 0,
    {
        RouterConfig {
            server: ServerConfig::default(),
            security: SecurityConfig::default(),
            observability: ObservabilityConfig::default(),
            caching: CachingConfig::default(),
            retry: RetryConfig::default(),
            circuit_breaker: CircuitBreakerConfig::default(),
            load_balancing_strategy: default_load_balancing_strategy(),
            policies: Vec::new(),
        }
    }
}

/// The place of the first endpoint of `llms` whose trimmed name is the
/// trimmed `name`, or the length of `llms` where there is none.
pub open spec fn llm_position(llms: Seq<Llm>, name: Seq<char>) -> int
    decreases llms.len(),
{
    if llms.len() == 0 || trimmed(llms[0].name@) == trimmed(name) {
        0
    } else {
        1 + llm_position(llms.drop_first(), name)
    }
}

/// A place that holds the first endpoint of the name, or the end where none
/// has it, is `llm_position`.
pub(crate) proof fn lemma_llm_position_is(llms: Seq<Llm>, name: Seq<char>, at: int)
    requires
        0 <= at <= llms.len(),
        at < llms.len() ==> trimmed(llms[at].name@) == trimmed(name),
        forall|k: int| 0 <= k < at ==> trimmed(llms[k].name@) != trimmed(name),
    ensures
        llm_position(llms, name) == at,
    decreases llms.len(),
{
    if llms.len() == 0 || trimmed(llms[0].name@) == trimmed(name) {
    } else {
        assert forall|k: int| 0 <= k < at - 1 implies trimmed(llms.drop_first()[k].name@)
            != trimmed(name) by {
            assert(llms.drop_first()[k] == llms[k + 1]);
        }
        lemma_llm_position_is(llms.drop_first(), name, at - 1);
    }
}

/// The endpoints of `llms` whose trimmed name is the trimmed `name`, in their
/// order.
pub open spec fn llms_named(llms: Seq<Llm>, name: Seq<char>) -> Seq<Llm>
    decreases llms.len(),
{
    if llms.len() == 0 {
        Seq::empty()
    } else if trimmed(llms.last().name@) == trimmed(name) {
        llms_named(llms.drop_last(), name).push(llms.last())
    } else {
        llms_named(llms.drop_last(), name)
    }
}

/// The place of the first policy of `policies` whose trimmed name is the
/// trimmed `name`, or the length of `policies` where there is none.
pub open spec fn policy_position(policies: Seq<Policy>, name: Seq<char>) -> int
    decreases policies.len(),
{
    if policies.len() == 0 || trimmed(policies[0].name@) == trimmed(name) {
        0
    } else {
        1 + policy_position(policies.drop_first(), name)
    }
}

/// A place that holds the first policy of the name, or the end where none has
/// it, is `policy_position`.
pub(crate) proof fn lemma_policy_position_is(policies: Seq<Policy>, name: Seq<char>, at: int)
    requires
        0 <= at <= policies.len(),
        at < policies.len() ==> trimmed(policies[at].name@) == trimmed(name),
        forall|k: int| 0 <= k < at ==> trimmed(policies[k].name@) != trimmed(name),
    ensures
        policy_position(policies, name) == at,
    decreases policies.len(),
{
    if policies.len() == 0 || trimmed(policies[0].name@) == trimmed(name) {
    } else {
        assert forall|k: int| 0 <= k < at - 1 implies trimmed(policies.drop_first()[k].name@)
            != trimmed(name) by {
            assert(policies.drop_first()[k] == policies[k + 1]);
        }
        lemma_policy_position_is(policies.drop_first(), name, at - 1);
    }
}

impl Policy {
    /// The first endpoint whose name, trimmed, is the trimmed `name`.
    pub fn get_llm_by_name(&self, name: &str) -> (found: Option<Llm>)
        ensures
            match found {
                Some(llm) => llm_position(self.llms@, name@) < self.llms@.len() && llm
                    == self.llms@[llm_position(self.llms@, name@)],
                None => llm_position(self.llms@, name@) == self.llms@.len(),
            },
    {
        let mut i: usize = 0;
        while i < self.llms.len()
            invariant
                i <= self.llms.len(),
                forall|k: int| 0 <= k < i ==> trimmed(self.llms@[k].name@) != trimmed(name@),
            decreases self.llms.len() - i,
        {
            if trimmed_eq(self.llms[i].name.as_str(), name) {
                proof {
                    lemma_llm_position_is(self.llms@, name@, i as int);
                }
                return Some(self.llms[i].clone());
            }
            i += 1;
        }
        proof {
            lemma_llm_position_is(self.llms@, name@, i as int);
        }
        None
    }

    /// The endpoint at `index`, where there is one.
    pub fn get_llm_by_index(&self, index: usize) -> (found: Option<Llm>)
        ensures
            found == (if index < self.llms@.len() {
                Some(self.llms@[index as int])
            } else {
                None
            }),
    {
        if index < self.llms.len() {
            Some(self.llms[index].clone())
        } else {
            None
        }
    }

    /// The name of the endpoint at `index`, where there is one.
    pub fn get_llm_name_by_index(&self, index: usize) -> (found: Option<String>)
        ensures
            found == (if index < self.llms@.len() {
                Some(self.llms@[index as int].name)
            } else {
                None
            }),
    {
        if index < self.llms.len() {
            Some(self.llms[index].name.clone())
        } else {
            None
        }
    }

    /// All endpoints whose name, trimmed, is the trimmed `name`: the peers
    /// among which the load balancer picks.
    pub fn get_llms_by_name(&self, name: &str) -> (found: Vec<&Llm>)
        ensures
            found@.map_values(|l: &Llm| *l) == llms_named(self.llms@, name@),
    {
        let mut out: Vec<&Llm> = Vec::new();
        let mut i: usize = 0;
        proof {
            assert(self.llms@.take(0) =~= Seq::<Llm>::empty());
            assert(out@.map_values(|l: &Llm| *l) =~= Seq::<Llm>::empty());
        }
        while i < self.llms.len()
            invariant
                i <= self.llms.len(),
                out@.map_values(|l: &Llm| *l) == llms_named(self.llms@.take(i as int), name@),
            decreases self.llms.len() - i,
        {
            let ghost before = out@;
            proof {
                let t = self.llms@.take(i + 1);
                assert(t.drop_last() =~= self.llms@.take(i as int));
                assert(t.last() == self.llms@[i as int]);
            }
            if trimmed_eq(self.llms[i].name.as_str(), name) {
                out.push(&self.llms[i]);
                proof {
                    assert(out@.map_values(|l: &Llm| *l) =~= before.map_values(|l: &Llm| *l).push(
                        self.llms@[i as int],
                    ));
                }
            }
            i += 1;
        }
        proof {
            assert(self.llms@.take(self.llms.len() as int) =~= self.llms@);
        }
        out
    }
}

/// The text that stands for an API key in a sanitized configuration.
pub open spec fn redacted() -> Seq<char> {
    "[REDACTED]"@
}

/// `llms` with every API key redacted.
pub open spec fn redacted_llms(llms: Seq<LlmView>) -> Seq<LlmView> {
    llms.map_values(
        |l: LlmView|
            LlmView { name: l.name, api_base: l.api_base, api_key: redacted(), model: l.model },
    )
}

/// `policies` with every API key redacted.
pub open spec fn redacted_policies(policies: Seq<PolicyView>) -> Seq<PolicyView> {
    policies.map_values(
        |p: PolicyView| PolicyView { name: p.name, url: p.url, llms: redacted_llms(p.llms) },
    )
}

/// A faulty entry of a configuration: a policy without a name, or an endpoint
/// without one of its required fields.
pub enum ConfigFault {
    Policy { policy: Seq<char>, field: Seq<char> },
    Llm { llm: Seq<char>, field: Seq<char> },
}

/// The first required field that `llm` lacks: `api_base`, then `model`, then
/// `api_key`.
pub open spec fn llm_fault(llm: LlmView) -> Option<ConfigFault> {
    if llm.api_base.len() == 0 {
        Some(ConfigFault::Llm { llm: llm.name, field: "api_base"@ })
    } else if llm.model.len() == 0 {
        Some(ConfigFault::Llm { llm: llm.name, field: "model"@ })
    } else if llm.api_key.len() == 0 {
        Some(ConfigFault::Llm { llm: llm.name, field: "api_key"@ })
    } else {
        None
    }
}

/// The fault of the first faulty endpoint of `llms`.
pub open spec fn llms_fault(llms: Seq<LlmView>) -> Option<ConfigFault>
    decreases llms.len(),
{
    if llms.len() == 0 {
        None
    } else if llm_fault(llms[0]) is Some {
        llm_fault(llms[0])
    } else {
        llms_fault(llms.drop_first())
    }
}

/// The fault of a policy: its empty name, else the fault of its first faulty
/// endpoint.
pub open spec fn policy_fault(policy: PolicyView) -> Option<ConfigFault> {
    if policy.name.len() == 0 {
        Some(ConfigFault::Policy { policy: policy.name, field: "name"@ })
    } else {
        llms_fault(policy.llms)
    }
}

/// The fault of the first faulty policy of `policies`.
pub open spec fn policies_fault(policies: Seq<PolicyView>) -> Option<ConfigFault>
    decreases policies.len(),
{
    if policies.len() == 0 {
        None
    } else if policy_fault(policies[0]) is Some {
        policy_fault(policies[0])
    } else {
        policies_fault(policies.drop_first())
    }
}

/// Whether `error` reports `fault`.
pub open spec fn reports(error: ConfigError, fault: ConfigFault) -> bool {
    match fault {
        ConfigFault::Policy { policy, field } => error matches ConfigError::MissingPolicyField {
            policy: p,
            field: f,
        } && p@ == policy && f@ == field,
        ConfigFault::Llm { llm, field } => error matches ConfigError::MissingLlmField {
            llm: l,
            field: f,
        } && l@ == llm && f@ == field,
    }
}

/// Checks one endpoint.
fn validate_llm(llm: &Llm) -> (result: Result<(), ConfigError>)
    ensures
        match result {
            Ok(_) => llm_fault(llm@) is None,
            Err(e) => llm_fault(llm@) is Some && reports(e, llm_fault(llm@)->Some_0),
        },
{
    if llm.api_base.as_str().is_empty() {
        return Err(
            ConfigError::MissingLlmField { llm: llm.name.clone(), field: "api_base".to_owned() },
        );
    }
    if llm.model.as_str().is_empty() {
        return Err(
            ConfigError::MissingLlmField { llm: llm.name.clone(), field: "model".to_owned() },
        );
    }
    if llm.api_key.as_str().is_empty() {
        return Err(
            ConfigError::MissingLlmField { llm: llm.name.clone(), field: "api_key".to_owned() },
        );
    }
    Ok(())
}

/// Checks one policy.
fn validate_policy(policy: &Policy) -> (result: Result<(), ConfigError>)
    ensures
        match result {
            Ok(_) => policy_fault(policy@) is None,
            Err(e) => policy_fault(policy@) is Some && reports(e, policy_fault(policy@)->Some_0),
        },
{
    if policy.name.as_str().is_empty() {
        return Err(
            ConfigError::MissingPolicyField {
                policy: policy.name.clone(),
                field: "name".to_owned(),
            },
        );
    }
    let ghost views = llm_views(policy.llms@);
    let mut i: usize = 0;
    proof {
        assert(views.skip(0) =~= views);
    }
    while i < policy.llms.len()
        invariant
            i <= policy.llms.len(),
            views == llm_views(policy.llms@),
            policy@.name.len() != 0,
            llms_fault(views.skip(i as int)) == llms_fault(views),
        decreases policy.llms.len() - i,
    {
        proof {
            assert(views.skip(i as int).drop_first() =~= views.skip(i + 1));
            assert(views.skip(i as int)[0] == policy.llms@[i as int]@);
        }
        match validate_llm(&policy.llms[i]) {
            Ok(_) => {},
            Err(e) => {
                return Err(e);
            },
        }
        i += 1;
    }
    Ok(())
}

/// Checks a configuration: every policy has a name, and every endpoint an
/// `api_base`, a `model` and an `api_key`. The error reports the first fault,
/// policies and endpoints taken in their order.
pub fn validate_config(config: &RouterConfig) -> (result: Result<(), ConfigError>)
    ensures
        match result {
            Ok(_) => policies_fault(config@.policies) is None,
            Err(e) => policies_fault(config@.policies) is Some && reports(
                e,
                policies_fault(config@.policies)->Some_0,
            ),
        },
{
    let ghost views = policy_views(config.policies@);
    let mut i: usize = 0;
    proof {
        assert(views.skip(0) =~= views);
    }
    while i < config.policies.len()
        invariant
            i <= config.policies.len(),
            views == policy_views(config.policies@),
            policies_fault(views.skip(i as int)) == policies_fault(views),
        decreases config.policies.len() - i,
    {
        proof {
            assert(views.skip(i as int).drop_first() =~= views.skip(i + 1));
            assert(views.skip(i as int)[0] == config.policies@[i as int]@);
        }
        match validate_policy(&config.policies[i]) {
            Ok(_) => {},
            Err(e) => {
                return Err(e);
            },
        }
        i += 1;
    }
    Ok(())
}

/// The value of the first variable of `env` named `name`.
pub open spec fn env_value(env: Seq<(String, String)>, name: Seq<char>) -> Option<Seq<char>>
    decreases env.len(),
{
    if env.len() == 0 {
        None
    } else if env[0].0@ == name {
        Some(env[0].1@)
    } else {
        env_value(env.drop_first(), name)
    }
}

/// The value of the variable `name` in `env`, where it is set.
pub fn env_get<'a>(env: &'a Vec<(String, String)>, name: &str) -> (value: Option<&'a String>)
    ensures
        match value {
            Some(v) => env_value(env@, name@) == Some(v@),
            None => env_value(env@, name@) is None,
        },
{
    let mut i: usize = 0;
    proof {
        assert(env@.skip(0) =~= env@);
    }
    while i < env.len()
        invariant
            i <= env.len(),
            env_value(env@.skip(i as int), name@) == env_value(env@, name@),
        decreases env.len() - i,
    {
        proof {
            assert(env@.skip(i as int).drop_first() =~= env@.skip(i + 1));
            assert(env@.skip(i as int)[0] == env@[i as int]);
        }
        if str_eq(env[i].0.as_str(), name) {
            return Some(&env[i].1);
        }
        i += 1;
    }
    None
}

/// `s` without the `+` that may stand before a number.
pub open spec fn unsigned_part(s: Seq<char>) -> Seq<char> {
    if s.len() > 0 && s[0] == '+' {
        s.drop_first()
    } else {
        s
    }
}

/// The number that `s` denotes, where `s` is a run of one or more ASCII
/// digits, with or without a `+` before it.
pub open spec fn parse_decimal(s: Seq<char>) -> Option<nat> {
    let digits = unsigned_part(s);
    if digits.len() > 0 && all_digits(digits) {
        Some(digits_value(digits))
    } else {
        None
    }
}

/// The number that `s` denotes, where it is one and at most `max`.
pub open spec fn parse_bounded(s: Seq<char>, max: nat) -> Option<nat> {
    match parse_decimal(s) {
        Some(n) => if n <= max {
            Some(n)
        } else {
            None
        },
        None => None,
    }
}

/// Reads a decimal number of at most `max`.
pub fn parse_number(s: &str, max: u64) -> (value: Option<u64>)
    ensures
        match value {
            Some(n) => parse_bounded(s@, max as nat) == Some(n as nat),
            None => parse_bounded(s@, max as nat) is None,
        },
{
    let v = chars_of(s);
    let start: usize = if v.len() > 0 && v[0] == '+' {
        1
    } else {
        0
    };
    proof {
        if start == 1 {
            assert(v@.drop_first() =~= v@.subrange(1, v.len() as int));
        } else {
            assert(v@ =~= v@.subrange(0, v.len() as int));
        }
    }
    if v.len() == start {
        return None;
    }
    match digits_number(&v, start, v.len(), max as u128) {
        Some(n) => Some(n as u64),
        None => None,
    }
}

/// The pieces of `s` between commas, each trimmed.
pub open spec fn trimmed_pieces(s: Seq<char>) -> Seq<Seq<char>> {
    split_on(s, ',').map_values(|piece: Seq<char>| trimmed(piece))
}

/// Splits `s` at its commas and trims each piece.
pub fn split_trimmed(s: &str) -> (pieces: Vec<String>)
    ensures
        texts(pieces@) == trimmed_pieces(s@),
{
    let v = chars_of(s);
    let mut out: Vec<String> = Vec::new();
    let mut from: usize = 0;
    let ghost mut done: Seq<Seq<char>> = Seq::empty();
    proof {
        assert(v@.skip(0) =~= v@);
        assert(texts(out@) =~= done.map_values(|piece: Seq<char>| trimmed(piece)));
    }
    loop
        invariant_except_break
            from <= v.len(),
            split_on(v@, ',') == done + split_on(v@.skip(from as int), ','),
            texts(out@) == done.map_values(|piece: Seq<char>| trimmed(piece)),
        invariant
            v@ == s@,
        ensures
            texts(out@) == trimmed_pieces(s@),
        decreases v.len() - from,
    {
        let offset = find_char(&v, from, ',');
        let to = from + offset;
        let ghost rest = v@.skip(from as int);
        let ghost piece = rest.take(offset as int);
        let mut piece_chars: Vec<char> = Vec::new();
        crate::text::push_range(&mut piece_chars, &v, from, to);
        proof {
            assert(piece_chars@ =~= piece);
        }
        let (a, b) = trim_bounds(&piece_chars);
        let ghost before = out@;
        out.push(substring(&piece_chars, a, b));
        proof {
            assert(texts(out@) =~= texts(before).push(trimmed(piece)));
            assert((done.push(piece)).map_values(|x: Seq<char>| trimmed(x)) =~= done.map_values(
                |x: Seq<char>| trimmed(x),
            ).push(trimmed(piece)));
        }
        if to < v.len() {
            proof {
                assert(rest.skip(offset + 1) =~= v@.skip(to + 1));
                assert(done + (seq![piece] + split_on(rest.skip(offset + 1), ',')) =~= done.push(
                    piece,
                ) + split_on(v@.skip(to + 1), ','));
                done = done.push(piece);
            }
            from = to + 1;
        } else {
            proof {
                assert(piece =~= rest);
                assert(done + seq![rest] =~= done.push(piece));
                done = done.push(piece);
            }
            break ;
        }
    }
    out
}

/// The names of the variables that override fields of the configuration.
pub open spec fn host_var() -> Seq<char> {
    "LLM_ROUTER__SERVER__HOST"@
}

pub open spec fn port_var() -> Seq<char> {
    "LLM_ROUTER__SERVER__PORT"@
}

pub open spec fn timeout_var() -> Seq<char> {
    "LLM_ROUTER__SERVER__REQUEST_TIMEOUT"@
}

pub open spec fn api_keys_var() -> Seq<char> {
    "LLM_ROUTER__SECURITY__API_KEYS"@
}

pub open spec fn rate_var() -> Seq<char> {
    "LLM_ROUTER__SECURITY__RATE_LIMIT__REQUESTS_PER_SECOND"@
}

pub open spec fn log_level_var() -> Seq<char> {
    "LLM_ROUTER__OBSERVABILITY__LOG_LEVEL"@
}

pub open spec fn json_logging_var() -> Seq<char> {
    "LLM_ROUTER__OBSERVABILITY__JSON_LOGGING"@
}

/// The number in the variable `name`, where it is set to one of at most `max`.
pub open spec fn env_number(env: Seq<(String, String)>, name: Seq<char>, max: nat) -> Option<nat> {
    match env_value(env, name) {
        Some(text) => parse_bounded(text, max),
        None => None,
    }
}

/// The rate limit after the override: the rate from the environment laid over
/// the configured limit, or over a burst of 50 per address where none was
/// configured.
pub open spec fn overridden_rate_limit(
    before: Option<RateLimitConfig>,
    env: Seq<(String, String)>,
) -> Option<RateLimitConfig> {
    match env_number(env, rate_var(), u32::MAX as nat) {
        Some(rate) => match before {
            Some(limit) => Some(
                RateLimitConfig {
                    requests_per_second: rate as u32,
                    burst_size: limit.burst_size,
                    per_ip: limit.per_ip,
                },
            ),
            None => Some(
                RateLimitConfig { requests_per_second: rate as u32, burst_size: 50, per_ip: true },
            ),
        },
        None => before,
    }
}

/// The configuration `before` with the overrides of `env` laid over it.
pub open spec fn overridden(before: RouterConfigView, env: Seq<(String, String)>) -> RouterConfigView {
    RouterConfigView {
        server: ServerConfigView {
            host: match env_value(env, host_var()) {
                Some(host) => host,
                None => before.server.host,
            },
            port: match env_number(env, port_var(), u16::MAX as nat) {
                Some(port) => port as u16,
                None => before.server.port,
            },
            request_timeout: match env_number(env, timeout_var(), u64::MAX as nat) {
                Some(seconds) => seconds as u64,
                None => before.server.request_timeout,
            },
            connection_pool_size: before.server.connection_pool_size,
        },
        security: SecurityConfigView {
            api_keys: match env_value(env, api_keys_var()) {
                Some(keys) => Some(trimmed_pieces(keys)),
                None => before.security.api_keys,
            },
            rate_limit: overridden_rate_limit(before.security.rate_limit, env),
        },
        observability: ObservabilityConfigView {
            log_level: match env_value(env, log_level_var()) {
                Some(level) => level,
                None => before.observability.log_level,
            },
            json_logging: match env_value(env, json_logging_var()) {
                Some(flag) => flag == "true"@,
                None => before.observability.json_logging,
            },
        },
        caching: before.caching,
        retry: before.retry,
        circuit_breaker: before.circuit_breaker,
        load_balancing_strategy: before.load_balancing_strategy,
        policies: before.policies,
    }
}

/// The name between `${` and `}`, where `key` has that form.
pub open spec fn placeholder_name(key: Seq<char>) -> Option<Seq<char>> {
    if key.len() >= 3 && key[0] == '$' && key[1] == '{' && key.last() == '}' {
        Some(key.subrange(2, key.len() - 1))
    } else {
        None
    }
}

/// The API key after resolution: the value of the variable that a placeholder
/// names, where it is set; else the key as it is.
pub open spec fn resolved_key(key: Seq<char>, env: Seq<(String, String)>) -> Seq<char> {
    match placeholder_name(key) {
        Some(name) => match env_value(env, name) {
            Some(value) => value,
            None => key,
        },
        None => key,
    }
}

/// `llms` with every API key resolved.
pub open spec fn resolved_llms(llms: Seq<LlmView>, env: Seq<(String, String)>) -> Seq<LlmView> {
    llms.map_values(
        |l: LlmView|
            LlmView {
                name: l.name,
                api_base: l.api_base,
                api_key: resolved_key(l.api_key, env),
                model: l.model,
            },
    )
}

/// `policies` with every API key resolved.
pub open spec fn resolved_policies(
    policies: Seq<PolicyView>,
    env: Seq<(String, String)>,
) -> Seq<PolicyView> {
    policies.map_values(
        |p: PolicyView| PolicyView { name: p.name, url: p.url, llms: resolved_llms(p.llms, env) },
    )
}

/// The API key `key` after resolution against `env`.
fn resolve_key(key: &String, env: &Vec<(String, String)>) -> (resolved: String)
    ensures
        resolved@ == resolved_key(key@, env@),
{
    let v = chars_of(key.as_str());
    let n = v.len();
    if n >= 3 && v[0] == '$' && v[1] == '{' && v[n - 1] == '}' {
        let name = substring(&v, 2, n - 1);
        match env_get(env, name.as_str()) {
            Some(value) => value.clone(),
            None => key.clone(),
        }
    } else {
        key.clone()
    }
}

impl RouterConfig {
    /// Finishes loading a configuration that was parsed from its file: lays
    /// the overrides of `env` over it, validates the result, and resolves the
    /// placeholders in API keys. A fault found by validation is the error, and
    /// there is no other.
    pub fn load_config(parsed: RouterConfig, env: &Vec<(String, String)>) -> (result: Result<
        RouterConfig,
        ConfigError,
    >)
        ensures
            match result {
                Ok(config) => policies_fault(parsed@.policies) is None && config@ == (
                    RouterConfigView {
                        policies: resolved_policies(parsed@.policies, env@),
                        ..overridden(parsed@, env@)
                    }),
                Err(e) => policies_fault(parsed@.policies) is Some && reports(
                    e,
                    policies_fault(parsed@.policies)->Some_0,
                ),
            },
    {
        let mut config = parsed;
        config.apply_env_overrides(env);
        match validate_config(&config) {
            Ok(_) => {},
            Err(e) => {
                return Err(e);
            },
        }
        config.resolve_env_vars(env);
        Ok(config)
    }

    /// Lays the overrides of `env` over this configuration. A variable that
    /// holds no number where one is due overrides nothing.
    pub fn apply_env_overrides(&mut self, env: &Vec<(String, String)>)
        ensures
            final(self)@ == overridden(old(self)@, env@),
    {
        match env_get(env, "LLM_ROUTER__SERVER__HOST") {
            Some(host) => {
                self.server.host = host.clone();
            },
            None => {},
        }
        match env_get(env, "LLM_ROUTER__SERVER__PORT") {
            Some(text) => match parse_number(text.as_str(), 65535) {
                Some(port) => {
                    self.server.port = port as u16;
                },
                None => {},
            },
            None => {},
        }
        match env_get(env, "LLM_ROUTER__SERVER__REQUEST_TIMEOUT") {
            Some(text) => match parse_number(text.as_str(), u64::MAX) {
                Some(seconds) => {
                    self.server.request_timeout = seconds;
                },
                None => {},
            },
            None => {},
        }
        match env_get(env, "LLM_ROUTER__SECURITY__API_KEYS") {
            Some(keys) => {
                self.security.api_keys = Some(split_trimmed(keys.as_str()));
            },
            None => {},
        }
        match env_get(env, "LLM_ROUTER__SECURITY__RATE_LIMIT__REQUESTS_PER_SECOND") {
            Some(text) => match parse_number(text.as_str(), 0xffff_ffff) {
                Some(rate) => {
                    let limit = match self.security.rate_limit {
                        Some(limit) => RateLimitConfig {
                            requests_per_second: rate as u32,
                            burst_size: limit.burst_size,
                            per_ip: limit.per_ip,
                        },
                        None => RateLimitConfig {
                            requests_per_second: rate as u32,
                            burst_size: 50,
                            per_ip: true,
                        },
                    };
                    self.security.rate_limit = Some(limit);
                },
                None => {},
            },
            None => {},
        }
        match env_get(env, "LLM_ROUTER__OBSERVABILITY__LOG_LEVEL") {
            Some(level) => {
                self.observability.log_level = level.clone();
            },
            None => {},
        }
        match env_get(env, "LLM_ROUTER__OBSERVABILITY__JSON_LOGGING") {
            Some(flag) => {
                self.observability.json_logging = str_eq(flag.as_str(), "true");
            },
            None => {},
        }
    }

    /// Resolves the placeholders in API keys: a key of the form `${NAME}`
    /// becomes the value of the variable `NAME` where `env` sets it, and stays
    /// as it is where not.
    pub fn resolve_env_vars(&mut self, env: &Vec<(String, String)>)
        ensures
            final(self)@ == (RouterConfigView {
                policies: resolved_policies(old(self)@.policies, env@),
                ..old(self)@
            }),
    {
        let mut policies: Vec<Policy> = Vec::new();
        let mut i: usize = 0;
        while i < self.policies.len()
            invariant
                i <= self.policies.len(),
                *self == *old(self),
                policies@.len() == i,
                forall|k: int|
                    0 <= k < i ==> (#[trigger] policies@[k])@ == resolved_policies(
                        policy_views(self.policies@),
                        env@,
                    )[k],
            decreases self.policies.len() - i,
        {
            let policy = &self.policies[i];
            let mut llms: Vec<Llm> = Vec::new();
            let mut j: usize = 0;
            while j < policy.llms.len()
                invariant
                    j <= policy.llms.len(),
                    llms@.len() == j,
                    forall|k: int|
                        0 <= k < j ==> (#[trigger] llms@[k])@ == resolved_llms(
                            llm_views(policy.llms@),
                            env@,
                        )[k],
                decreases policy.llms.len() - j,
            {
                let llm = &policy.llms[j];
                llms.push(
                    Llm {
                        name: llm.name.clone(),
                        api_base: llm.api_base.clone(),
                        api_key: resolve_key(&llm.api_key, env),
                        model: llm.model.clone(),
                    },
                );
                j += 1;
            }
            proof {
                assert(llm_views(llms@) =~= resolved_llms(llm_views(policy.llms@), env@));
            }
            policies.push(Policy { name: policy.name.clone(), url: policy.url.clone(), llms });
            i += 1;
        }
        proof {
            assert(policy_views(policies@) =~= resolved_policies(
                policy_views(self.policies@),
                env@,
            ));
        }
        self.policies = policies;
    }

    /// The first policy whose name, trimmed, is the trimmed `name`.
    pub fn get_policy_by_name(&self, name: &str) -> (found: Option<Policy>)
        ensures
            match found {
                Some(policy) => policy_position(self.policies@, name@) < self.policies@.len()
                    && policy@ == self.policies@[policy_position(self.policies@, name@)]@,
                None => policy_position(self.policies@, name@) == self.policies@.len(),
            },
    {
        let mut i: usize = 0;
        while i < self.policies.len()
            invariant
                i <= self.policies.len(),
                forall|k: int|
                    0 <= k < i ==> trimmed(self.policies@[k].name@) != trimmed(name@),
            decreases self.policies.len() - i,
        {
            if trimmed_eq(self.policies[i].name.as_str(), name) {
                proof {
                    lemma_policy_position_is(self.policies@, name@, i as int);
                }
                return Some(self.policies[i].clone());
            }
            i += 1;
        }
        proof {
            lemma_policy_position_is(self.policies@, name@, i as int);
        }
        None
    }

    /// The policy at `index`, where there is one.
    pub fn get_policy_by_index(&self, index: usize) -> (found: Option<Policy>)
        ensures
            match found {
                Some(policy) => index < self.policies@.len() && policy@
                    == self.policies@[index as int]@,
                None => index >= self.policies@.len(),
            },
    {
        if index < self.policies.len() {
            Some(self.policies[index].clone())
        } else {
            None
        }
    }

    /// This configuration with every API key replaced by `[REDACTED]`: the
    /// only form that may be logged.
    pub fn sanitized(&self) -> (clean: RouterConfig)
        ensures
            clean@ == (RouterConfigView {
                policies: redacted_policies(self@.policies),
                ..self@
            }),
    {
        let mut clean = self.clone();
        let mut policies: Vec<Policy> = Vec::new();
        let mut i: usize = 0;
        while i < self.policies.len()
            invariant
                i <= self.policies.len(),
                policies@.len() == i,
                forall|k: int|
                    0 <= k < i ==> (#[trigger] policies@[k])@ == redacted_policies(
                        policy_views(self.policies@),
                    )[k],
            decreases self.policies.len() - i,
        {
            let policy = &self.policies[i];
            let mut llms: Vec<Llm> = Vec::new();
            let mut j: usize = 0;
            while j < policy.llms.len()
                invariant
                    j <= policy.llms.len(),
                    llms@.len() == j,
                    forall|k: int|
                        0 <= k < j ==> (#[trigger] llms@[k])@ == redacted_llms(
                            llm_views(policy.llms@),
                        )[k],
                decreases policy.llms.len() - j,
            {
                let llm = &policy.llms[j];
                llms.push(
                    Llm {
                        name: llm.name.clone(),
                        api_base: llm.api_base.clone(),
                        api_key: "[REDACTED]".to_owned(),
                        model: llm.model.clone(),
                    },
                );
                j += 1;
            }
            proof {
                assert(llm_views(llms@) =~= redacted_llms(llm_views(policy.llms@)));
            }
            policies.push(Policy { name: policy.name.clone(), url: policy.url.clone(), llms });
            i += 1;
        }
        proof {
            assert(policy_views(policies@) =~= redacted_policies(policy_views(self.policies@)));
        }
        clean.policies = policies;
        clean
    }
}

/// The store of the current configuration snapshot. Readers get a copy of the
/// snapshot; a reload replaces it whole, or leaves it as it is.
pub struct ConfigManager {
    config_path: String,
    config: RouterConfig,
}

impl ConfigManager {
    /// The snapshot that readers currently get.
    pub closed spec fn snapshot(self) -> RouterConfigView {
        self.config@
    }

    /// The path of the file the configuration comes from.
    pub closed spec fn path(self) -> Seq<char> {
        self.config_path@
    }

    /// A store for the configuration loaded from `config_path`: the loader's
    /// error where loading failed.
    pub fn new(config_path: &str, loaded: Result<RouterConfig, ConfigError>) -> (result: Result<
        ConfigManager,
        ConfigError,
    >)
        ensures
            match (loaded, result) {
                (Ok(config), Ok(manager)) => manager.snapshot() == config@ && manager.path()
                    == config_path@,
                (Err(e), Err(f)) => e == f,
                _ => false,
            },
    {
        match loaded {
            Ok(config) => Ok(ConfigManager { config_path: config_path.to_owned(), config }),
            Err(e) => Err(e),
        }
    }

    /// A copy of the current snapshot.
    pub fn get_config(&self) -> (config: RouterConfig)
        ensures
            config@ == self.snapshot(),
    {
        self.config.clone()
    }

    /// The path of the file the configuration comes from.
    pub fn config_path(&self) -> (path: &str)
        ensures
            path@ == self.path(),
    {
        self.config_path.as_str()
    }

    /// Takes the outcome of one reload: a configuration that loaded replaces
    /// the snapshot, a failure leaves the previous snapshot in place. Returns
    /// whether the snapshot was replaced.
    pub fn reload(&mut self, loaded: Result<RouterConfig, ConfigError>) -> (replaced: bool)
        ensures
            final(self).path() == old(self).path(),
            replaced == (loaded is Ok),
            final(self).snapshot() == (match loaded {
                Ok(config) => config@,
                Err(_) => old(self).snapshot(),
            }),
    {
        match loaded {
            Ok(config) => {
                self.config = config;
                true
            },
            Err(_) => false,
        }
    }

    /// Whether the value of the hot-reload switch turns reloading on: only the
    /// text `true` does.
    pub fn hot_reload_enabled(switch: Option<&str>) -> (enabled: bool)
        ensures
            enabled == (switch matches Some(s) && s@ == "true"@),
    {
        match switch {
            Some(s) => str_eq(s, "true"),
            None => false,
        }
    }
}

impl Clone for ConfigManager {
    fn clone(&self) -> (copy: ConfigManager)
        ensures
            copy.snapshot() == self.snapshot(),
            copy.path() == self.path(),
    {
        ConfigManager { config_path: self.config_path.clone(), config: self.config.clone() }
    }
}

} // verus!
