use llm_router_gateway_api::json::{Json, JsonNumber};
use llm_router_gateway_api::logging::{level_from_name, log_level, LogLevel};
use llm_router_gateway_api::client::http_client_settings;
use llm_router_gateway_api::config::RouterConfig;
use llm_router_gateway_api::metrics::{
    labels1, labels2, track_load_balancer_selection, track_retry, track_token_usage,
    update_cache_size, update_circuit_breaker_status, wrapping_sum, LabelledCounter, Metrics,
};

fn usage(prompt: Json, completion: Json, total: Json) -> Json {
    Json::Object(vec![(
        "usage".to_string(),
        Json::Object(vec![
            ("prompt_tokens".to_string(), prompt),
            ("completion_tokens".to_string(), completion),
            ("total_tokens".to_string(), total),
        ]),
    )])
}

#[test]
fn counters_start_at_zero_and_count_by_labels() {
    let mut c = LabelledCounter::new();
    assert_eq!(c.get(&labels1("a")), 0);
    c.inc(labels1("a"));
    c.inc(labels1("a"));
    c.inc_by(labels1("b"), 5);
    c.inc(labels2("a", "b"));
    assert_eq!(c.get(&labels1("a")), 2);
    assert_eq!(c.get(&labels1("b")), 5);
    assert_eq!(c.get(&labels2("a", "b")), 1);
    assert_eq!(c.get(&labels2("b", "a")), 0);
    assert_eq!(c.get(&Vec::new()), 0);
    c.reset(labels1("a"));
    assert_eq!(c.get(&labels1("a")), 0);
    assert_eq!(c.get(&labels1("b")), 5);
    c.reset(labels1("never"));
    assert_eq!(c.get(&labels1("never")), 0);
}

#[test]
fn counters_wrap_around() {
    assert_eq!(wrapping_sum(1, 2), 3);
    assert_eq!(wrapping_sum(u64::MAX, 1), 0);
    assert_eq!(wrapping_sum(u64::MAX, u64::MAX), u64::MAX - 1);
    assert_eq!(wrapping_sum(0, u64::MAX), u64::MAX);
    assert_eq!(wrapping_sum(5, u64::MAX), 4);
    for (a, b) in [(0u64, 0u64), (7, 9), (u64::MAX, 3), (u64::MAX - 1, 1), (1 << 63, 1 << 63)] {
        assert_eq!(wrapping_sum(a, b), a.wrapping_add(b));
    }
    let mut c = LabelledCounter::new();
    c.inc_by(labels1("a"), u64::MAX);
    c.inc(labels1("a"));
    assert_eq!(c.get(&labels1("a")), 0);
    let mut m = Metrics::new();
    m.cache_hit_count = u64::MAX;
    m.cache_hit();
    m.cache_miss();
    assert_eq!((m.cache_hit_count, m.cache_miss_count), (0, 1));
}

#[test]
fn token_usage_by_category() {
    let mut m = Metrics::new();
    track_token_usage(
        &mut m,
        &usage(Json::unsigned(10), Json::unsigned(20), Json::unsigned(30)),
        "b",
    );
    track_token_usage(
        &mut m,
        &usage(Json::unsigned(1), Json::Null, Json::Number(JsonNumber::decimal(false, 15, -1))),
        "b",
    );
    track_token_usage(&mut m, &usage(Json::unsigned(5), Json::unsigned(5), Json::unsigned(5)), "a");
    track_token_usage(&mut m, &Json::Object(vec![]), "b");
    track_token_usage(&mut m, &Json::Array(vec![]), "b");
    track_token_usage(
        &mut m,
        &Json::Object(vec![("usage".to_string(), Json::unsigned(3))]),
        "b",
    );
    track_token_usage(
        &mut m,
        &usage(Json::Number(JsonNumber::decimal(true, 4, 0)), Json::string("9"), Json::Bool(true)),
        "b",
    );
    assert_eq!(m.token_usage.get(&labels2("b", "prompt")), 11);
    assert_eq!(m.token_usage.get(&labels2("b", "completion")), 20);
    assert_eq!(m.token_usage.get(&labels2("b", "total")), 30);
    assert_eq!(m.token_usage.get(&labels2("a", "prompt")), 5);
    assert_eq!(m.token_usage.get(&labels2("a", "total")), 5);
    assert_eq!(m.token_usage.get(&labels2("c", "total")), 0);
}

#[test]
fn retries_and_selections_are_counted() {
    let mut m = Metrics::new();
    track_retry(&mut m, "b");
    track_retry(&mut m, "b");
    track_retry(&mut m, "a");
    assert_eq!(m.retry_count.get(&labels1("b")), 2);
    assert_eq!(m.retry_count.get(&labels1("a")), 1);
    track_load_balancer_selection(&mut m, "a", "http://A");
    track_load_balancer_selection(&mut m, "a", "http://A2");
    track_load_balancer_selection(&mut m, "a", "http://A");
    assert_eq!(m.load_balancer_usage.get(&labels2("a", "http://A")), 2);
    assert_eq!(m.load_balancer_usage.get(&labels2("a", "http://A2")), 1);
    update_cache_size(&mut m, 17);
    assert_eq!(m.cache_size, 17);
    update_cache_size(&mut m, 0);
    assert_eq!(m.cache_size, 0);
}

#[test]
fn breaker_status_shows_the_current_state() {
    let mut m = Metrics::new();
    let status = |m: &Metrics, s: &str| m.circuit_breaker_status.get(&labels2("http://B", s));
    update_circuit_breaker_status(&mut m, "http://B", "closed");
    assert_eq!((status(&m, "closed"), status(&m, "half-open"), status(&m, "open")), (1, 0, 0));
    update_circuit_breaker_status(&mut m, "http://B", "open");
    assert_eq!((status(&m, "closed"), status(&m, "half-open"), status(&m, "open")), (0, 0, 1));
    assert_eq!(m.circuit_breaker_open.get(&labels1("http://B")), 1);
    update_circuit_breaker_status(&mut m, "http://B", "open");
    assert_eq!(status(&m, "open"), 1);
    assert_eq!(m.circuit_breaker_open.get(&labels1("http://B")), 2);
    update_circuit_breaker_status(&mut m, "http://B", "half-open");
    assert_eq!((status(&m, "closed"), status(&m, "half-open"), status(&m, "open")), (0, 1, 0));
    update_circuit_breaker_status(&mut m, "http://A", "closed");
    assert_eq!(status(&m, "half-open"), 1);
    assert_eq!(m.circuit_breaker_status.get(&labels2("http://A", "closed")), 1);
    update_circuit_breaker_status(&mut m, "http://B", "odd");
    update_circuit_breaker_status(&mut m, "http://B", "odd");
    assert_eq!((status(&m, "closed"), status(&m, "half-open"), status(&m, "open")), (0, 0, 0));
    assert_eq!(status(&m, "odd"), 2);
    assert_eq!(m.circuit_breaker_open.get(&labels1("http://B")), 2);
    assert_eq!(m.circuit_breaker_open.get(&labels1("http://A")), 0);
}

#[test]
fn log_levels_by_name() {
    assert_eq!(log_level("trace"), LogLevel::Trace);
    assert_eq!(log_level("DEBUG"), LogLevel::Debug);
    assert_eq!(log_level("Info"), LogLevel::Info);
    assert_eq!(log_level("warn"), LogLevel::Warn);
    assert_eq!(log_level("ERROR"), LogLevel::Error);
    assert_eq!(log_level("verbose"), LogLevel::Info);
    assert_eq!(log_level(""), LogLevel::Info);
    assert_eq!(level_from_name("WARN"), LogLevel::Info);
    assert_eq!(level_from_name("warn"), LogLevel::Warn);
}

#[test]
fn client_settings_follow_the_configuration() {
    let mut c = RouterConfig::default();
    c.server.request_timeout = 12;
    c.server.connection_pool_size = 7;
    let s = http_client_settings(&c, "1.2.3");
    assert_eq!(s.timeout_secs, 12);
    assert_eq!(s.pool_max_idle_per_host, 7);
    assert_eq!(s.pool_idle_timeout_secs, 90);
    assert_eq!(s.connect_timeout_secs, 10);
    assert_eq!(s.tcp_keepalive_secs, 60);
    assert_eq!(s.user_agent, "llm-router-gateway/1.2.3");
    assert!(s.brotli && s.gzip && s.deflate);
}
