use llm_router_gateway_api::cache::{CachedResponse, ResponseCache};
use llm_router_gateway_api::circuitbreaker::{CircuitBreakerRegistry, CircuitState};
use llm_router_gateway_api::config::{Llm, Policy, RouterConfig};
use llm_router_gateway_api::error::{GatewayApiError, RoutingErrorType};
use llm_router_gateway_api::json::{Json, JsonNumber};
use llm_router_gateway_api::loadbalance::{LoadBalancer, LoadBalancingStrategy};
use llm_router_gateway_api::metrics::{labels1, track_outcome, track_policy, track_request, Metrics};
use llm_router_gateway_api::retry::{Outcome, RetryDecision, RetryState};
use llm_router_gateway_api::router::{
    attempt_outcome, breaker_refusal, cache_key_for, choose_model, classifier_request, conclude,
    conclude_failure, extract_params, is_hop_by_hop, is_streaming, lookup_cached,
    needs_classifier, peers, prepare_outbound, provider_headers, resolve_policy, rewrite_body,
    select_by_scores, unknown_path, ClassifierAnswer, Outbound,
};
use serde_json::Value;

const PATH: &str = "/v1/chat/completions";

fn decimal_of(text: &str) -> JsonNumber {
    JsonNumber::parse(text).unwrap()
}

fn from_value(v: &Value) -> Json {
    match v {
        Value::Null => Json::Null,
        Value::Bool(b) => Json::Bool(*b),
        Value::Number(n) => {
            if let Some(u) = n.as_u64() {
                Json::Number(JsonNumber::from_u64(u))
            } else if let Some(i) = n.as_i64() {
                Json::Number(JsonNumber::decimal(true, i.unsigned_abs(), 0))
            } else {
                Json::Number(decimal_of(&n.to_string()))
            }
        }
        Value::String(s) => Json::String(s.clone()),
        Value::Array(items) => Json::Array(items.iter().map(from_value).collect()),
        Value::Object(map) => {
            Json::Object(map.iter().map(|(k, v)| (k.clone(), from_value(v))).collect())
        }
    }
}

fn parse(text: &str) -> Json {
    from_value(&serde_json::from_str::<Value>(text).unwrap())
}

fn value(json: &Json) -> Value {
    serde_json::from_str(&json.to_text()).unwrap()
}

fn llm(name: &str, model: &str, base: &str, key: &str) -> Llm {
    Llm {
        name: name.to_string(),
        api_base: base.to_string(),
        api_key: key.to_string(),
        model: model.to_string(),
    }
}

fn config() -> RouterConfig {
    let mut c = RouterConfig::default();
    c.policies = vec![Policy {
        name: "p1".to_string(),
        url: "http://c/p1".to_string(),
        llms: vec![llm("a", "m-a", "http://A", "ka"), llm("b", "m-b", "http://B", "kb")],
    }];
    c.circuit_breaker.failure_threshold = 3;
    c.circuit_breaker.reset_timeout_secs = 30;
    c
}

struct Gateway {
    config: RouterConfig,
    cache: ResponseCache,
    breakers: CircuitBreakerRegistry,
    balancer: LoadBalancer,
    metrics: Metrics,
    classifier_calls: usize,
    provider_calls: Vec<Outbound>,
}

fn gateway() -> Gateway {
    let config = config();
    Gateway {
        cache: ResponseCache::new(300, 1000),
        breakers: CircuitBreakerRegistry::new(
            config.circuit_breaker.failure_threshold,
            config.circuit_breaker.reset_timeout_secs,
        ),
        balancer: LoadBalancer::new(LoadBalancingStrategy::RoundRobin),
        metrics: Metrics::new(),
        classifier_calls: 0,
        provider_calls: Vec::new(),
        config,
    }
}

fn ok(body: &str) -> CachedResponse {
    CachedResponse { status: 200, headers: Vec::new(), body: body.as_bytes().to_vec() }
}

fn status(code: u16) -> CachedResponse {
    CachedResponse { status: code, headers: Vec::new(), body: Vec::new() }
}

/// One request through the stages, with a classifier that answers `scores`
/// and a provider that answers with `answers`, one for each attempt.
fn serve(
    g: &mut Gateway,
    body_text: &str,
    scores: Option<&str>,
    answers: Vec<CachedResponse>,
    now: u64,
) -> Result<CachedResponse, GatewayApiError> {
    track_request(&mut g.metrics);
    let body = parse(body_text);
    let params = extract_params(&body)?;
    let policy = resolve_policy(&g.config, &params.policy)?;
    track_policy(&mut g.metrics, &policy.name);
    if let Some(hit) = lookup_cached(&g.cache, &body, PATH, now, &mut g.metrics) {
        return Ok(hit);
    }
    let key = if is_streaming(&body) { None } else { cache_key_for(&g.cache, &body, PATH) };
    let answer = if needs_classifier(&params) {
        g.classifier_calls += 1;
        let _asked = classifier_request(&body, params.threshold);
        match scores {
            Some(text) => ClassifierAnswer::Scores(parse(text)),
            None => ClassifierAnswer::Unavailable,
        }
    } else {
        ClassifierAnswer::NotAsked
    };
    let name = choose_model(&policy, &params.model, &answer)?;
    let candidates = peers(&policy, &name);
    let instance = g.balancer.select_instance(&name, &candidates, &mut g.metrics)?.clone();
    let outbound =
        prepare_outbound(&name, &instance, &mut g.breakers, &body, PATH, now, &mut g.metrics)?;
    let mut retry = RetryState::new(g.config.retry.max_retries, g.config.retry.initial_backoff_ms);
    let mut answers = answers.into_iter();
    loop {
        let response = answers.next().expect("the provider was called once too often");
        g.provider_calls.push(Outbound {
            url: outbound.url.clone(),
            headers: outbound.headers.clone(),
            body: outbound.body.clone(),
            llm_name: outbound.llm_name.clone(),
            api_base: outbound.api_base.clone(),
        });
        match retry.on_result(attempt_outcome(response.status), None, &name, &mut g.metrics) {
            RetryDecision::Retry { .. } => continue,
            RetryDecision::Return => {
                return conclude(&mut g.breakers, &mut g.cache, &outbound, response, &key, now)
            }
        }
    }
}

fn finish(g: &mut Gateway, result: Result<CachedResponse, GatewayApiError>) -> (u16, Vec<u8>) {
    match result {
        Ok(response) => {
            track_outcome(&mut g.metrics, response.status);
            (response.status, response.body)
        }
        Err(error) => {
            let response = error.to_response().unwrap();
            track_outcome(&mut g.metrics, response.status);
            (response.status, response.body.into_bytes())
        }
    }
}

#[test]
fn happy_path_with_classifier() {
    let mut g = gateway();
    let result = serve(
        &mut g,
        r#"{"nim-llm-router":{"policy":"p1"},"messages":[{"role":"user","content":"hi"}]}"#,
        Some(r#"{"a":0.2,"b":0.8}"#),
        vec![ok("{\"choices\":[]}")],
        0,
    );
    let (code, body) = finish(&mut g, result);
    assert_eq!((code, body), (200, b"{\"choices\":[]}".to_vec()));
    assert_eq!(g.classifier_calls, 1);
    assert_eq!(g.provider_calls.len(), 1);
    let sent = &g.provider_calls[0];
    assert_eq!(sent.url, "http://B/v1/chat/completions");
    assert_eq!(
        sent.headers,
        vec![
            ("Authorization".to_string(), "Bearer kb".to_string()),
            ("Content-Type".to_string(), "application/json".to_string())
        ]
    );
    let expected: Value =
        serde_json::from_str(r#"{"model":"m-b","messages":[{"role":"user","content":"hi"}]}"#)
            .unwrap();
    assert_eq!(value(&sent.body), expected);
    assert_eq!(g.metrics.requests_per_model.get(&labels1("m-b")), 1);
    assert_eq!(g.metrics.requests_per_model.get(&labels1("m-a")), 0);
    assert_eq!(g.metrics.requests_per_policy.get(&labels1("p1")), 1);
    assert_eq!(g.metrics.routing_policy_usage.get(&labels1("p1")), 1);
    assert_eq!(g.metrics.num_requests, 1);
    assert_eq!(g.metrics.request_success, 1);
    assert_eq!(g.breakers.get_all_breakers(), vec![("http://B".to_string(), CircuitState::Closed)]);
}

#[test]
fn explicit_model_override() {
    let mut g = gateway();
    let result = serve(
        &mut g,
        r#"{"nim-llm-router":{"policy":"p1","model":"a"},"messages":[{"role":"user","content":"hi"}]}"#,
        Some(r#"{"a":0.2,"b":0.8}"#),
        vec![ok("fine")],
        0,
    );
    assert_eq!(finish(&mut g, result).0, 200);
    assert_eq!(g.classifier_calls, 0);
    assert_eq!(g.provider_calls.len(), 1);
    assert_eq!(g.provider_calls[0].url, "http://A/v1/chat/completions");
    assert_eq!(g.provider_calls[0].headers[0].1, "Bearer ka");
    assert_eq!(value(&g.provider_calls[0].body)["model"], "m-a");
    assert_eq!(g.metrics.requests_per_model.get(&labels1("m-a")), 1);
}

#[test]
fn an_explicit_model_that_the_policy_lacks_is_not_found() {
    let mut g = gateway();
    let result = serve(
        &mut g,
        r#"{"nim-llm-router":{"policy":"p1","model":"z"},"messages":[]}"#,
        Some(r#"{"a":1}"#),
        vec![],
        0,
    );
    let (code, body) = finish(&mut g, result);
    assert_eq!(code, 404);
    let json: Value = serde_json::from_slice(&body).unwrap();
    assert_eq!(json["error"]["type"], "routing_error_model_not_found");
    assert_eq!(g.classifier_calls, 0);
    assert!(g.provider_calls.is_empty());
    assert_eq!(g.metrics.request_failure.get(&labels1("4XX")), 1);
}

#[test]
fn cache_hit() {
    let mut g = gateway();
    let text = r#"{"nim-llm-router":{"policy":"p1"},"messages":[{"role":"user","content":"q"}],"temperature":0}"#;
    let first = serve(&mut g, text, Some(r#"{"a":0.2,"b":0.8}"#), vec![ok("\"42\"")], 0);
    assert_eq!(finish(&mut g, first), (200, b"\"42\"".to_vec()));
    assert_eq!(g.provider_calls.len(), 1);
    assert_eq!(g.metrics.cache_hit_count, 0);
    assert_eq!(g.metrics.cache_miss_count, 1);
    let second = serve(&mut g, text, None, vec![], 1_000);
    assert_eq!(finish(&mut g, second), (200, b"\"42\"".to_vec()));
    assert_eq!(g.provider_calls.len(), 1);
    assert_eq!(g.classifier_calls, 1);
    assert_eq!(g.metrics.cache_hit_count, 1);
    assert_eq!(g.metrics.cache_miss_count, 1);
    assert_eq!(g.metrics.requests_per_model.get(&labels1("m-b")), 1);
}

#[test]
fn a_request_that_is_not_cacheable_is_neither_looked_up_nor_stored() {
    let mut g = gateway();
    for text in [
        r#"{"nim-llm-router":{"policy":"p1","model":"b"},"messages":[],"temperature":0.7}"#,
        r#"{"nim-llm-router":{"policy":"p1","model":"b"},"messages":[],"stream":true}"#,
        r#"{"nim-llm-router":{"policy":"p1","model":"b"},"messages":[],"cache":false}"#,
    ] {
        for _ in 0..2 {
            let result = serve(&mut g, text, None, vec![ok("x")], 0);
            assert_eq!(finish(&mut g, result).0, 200);
        }
    }
    assert_eq!(g.provider_calls.len(), 6);
    assert_eq!((g.metrics.cache_hit_count, g.metrics.cache_miss_count), (0, 0));
    assert_eq!(g.cache.get_stats(0), (0, 0));
}

#[test]
fn a_failed_answer_is_not_cached() {
    let mut g = gateway();
    let text = r#"{"nim-llm-router":{"policy":"p1","model":"b"},"messages":[],"temperature":0}"#;
    let first = serve(&mut g, text, None, vec![status(400)], 0);
    assert_eq!(finish(&mut g, first).0, 400);
    assert_eq!(g.cache.get_stats(0), (0, 0));
    let second = serve(&mut g, text, None, vec![ok("y")], 1);
    assert_eq!(finish(&mut g, second), (200, b"y".to_vec()));
    assert_eq!(g.cache.get_stats(1), (1, 1));
    assert_eq!(g.metrics.cache_miss_count, 2);
}

#[test]
fn breaker_open() {
    let mut g = gateway();
    g.config.retry.max_retries = 0;
    let text = r#"{"nim-llm-router":{"policy":"p1","model":"b"},"messages":[]}"#;
    for i in 0..3u64 {
        let result = serve(&mut g, text, None, vec![status(503)], 1_000 * i);
        match result {
            Err(GatewayApiError::LlmServiceError { status, provider, .. }) => {
                assert_eq!((status, provider.as_str()), (503, "b"))
            }
            other => panic!("unexpected {:?}", other.map(|r| r.status)),
        }
    }
    assert_eq!(g.provider_calls.len(), 3);
    assert_eq!(g.breakers.get_all_breakers(), vec![("http://B".to_string(), CircuitState::Open)]);
    let fourth = serve(&mut g, text, None, vec![], 3_000);
    match &fourth {
        Err(GatewayApiError::LlmServiceError { status, provider, .. }) => {
            assert_eq!((*status, provider.as_str()), (503, "b"))
        }
        other => panic!("unexpected {:?}", other.as_ref().map(|r| r.status)),
    }
    let (code, body) = finish(&mut g, fourth);
    assert_eq!(code, 503);
    let json: Value = serde_json::from_slice(&body).unwrap();
    assert_eq!(json["error"]["type"], "llm_service_error");
    assert_eq!(json["error"]["provider"], "b");
    assert_eq!(json["error"]["source"], "llm_provider");
    assert_eq!(g.provider_calls.len(), 3);
    let still = serve(&mut g, text, None, vec![], 32_000);
    assert!(still.is_err());
    assert_eq!(g.provider_calls.len(), 3);
    let other_endpoint = serve(
        &mut g,
        r#"{"nim-llm-router":{"policy":"p1","model":"a"},"messages":[],"cache":false}"#,
        None,
        vec![ok("a")],
        3_000,
    );
    assert!(other_endpoint.is_ok());
    let probe = serve(&mut g, text, None, vec![ok("back")], 32_001);
    assert_eq!(finish(&mut g, probe), (200, b"back".to_vec()));
    assert_eq!(g.provider_calls.len(), 5);
    assert_eq!(
        g.breakers.get_all_breakers(),
        vec![
            ("http://B".to_string(), CircuitState::Closed),
            ("http://A".to_string(), CircuitState::Closed)
        ]
    );
}

#[test]
fn while_half_open_only_the_probe_goes_out() {
    let mut breakers = CircuitBreakerRegistry::new(1, 30);
    let mut m = Metrics::new();
    let b = llm("b", "m-b", "http://B", "kb");
    let body = parse(r#"{"messages":[]}"#);
    let out = prepare_outbound("b", &b, &mut breakers, &body, PATH, 0, &mut m).unwrap();
    conclude_failure(&mut breakers, &out, 0);
    assert!(prepare_outbound("b", &b, &mut breakers, &body, PATH, 30_000, &mut m).is_err());
    assert!(prepare_outbound("b", &b, &mut breakers, &body, PATH, 30_001, &mut m).is_ok());
    assert!(prepare_outbound("b", &b, &mut breakers, &body, PATH, 30_002, &mut m).is_err());
    assert!(prepare_outbound("b", &b, &mut breakers, &body, PATH, 90_000, &mut m).is_err());
    conclude_failure(&mut breakers, &out, 31_000);
    assert!(prepare_outbound("b", &b, &mut breakers, &body, PATH, 61_000, &mut m).is_err());
    assert!(prepare_outbound("b", &b, &mut breakers, &body, PATH, 61_001, &mut m).is_ok());
    assert_eq!(m.requests_per_model.get(&labels1("m-b")), 3);
}

#[test]
fn retry_then_succeed_through_the_gateway() {
    let mut g = gateway();
    g.config.retry.max_retries = 2;
    g.config.retry.initial_backoff_ms = 100;
    let result = serve(
        &mut g,
        r#"{"nim-llm-router":{"policy":"p1","model":"b"},"messages":[]}"#,
        None,
        vec![status(502), status(502), ok("done")],
        0,
    );
    assert_eq!(finish(&mut g, result), (200, b"done".to_vec()));
    assert_eq!(g.provider_calls.len(), 3);
    assert_eq!(g.metrics.retry_count.get(&labels1("b")), 2);
    assert_eq!(g.breakers.get_all_breakers(), vec![("http://B".to_string(), CircuitState::Closed)]);
}

#[test]
fn retries_end_with_the_last_failure() {
    let mut g = gateway();
    let result = serve(
        &mut g,
        r#"{"nim-llm-router":{"policy":"p1","model":"b"},"messages":[]}"#,
        None,
        vec![status(503), status(500), status(504)],
        0,
    );
    assert_eq!(finish(&mut g, result).0, 504);
    assert_eq!(g.provider_calls.len(), 3);
    assert_eq!(g.metrics.retry_count.get(&labels1("b")), 2);
    assert_eq!(g.metrics.request_failure.get(&labels1("5XX")), 1);
    let not_retried = serve(
        &mut g,
        r#"{"nim-llm-router":{"policy":"p1","model":"a"},"messages":[]}"#,
        None,
        vec![status(404)],
        0,
    );
    assert_eq!(finish(&mut g, not_retried).0, 404);
    assert_eq!(g.metrics.retry_count.get(&labels1("a")), 0);
}

#[test]
fn unknown_policy() {
    let mut g = gateway();
    let result = serve(
        &mut g,
        r#"{"nim-llm-router":{"policy":"nope"},"messages":[]}"#,
        Some(r#"{"a":1}"#),
        vec![],
        0,
    );
    let (code, body) = finish(&mut g, result);
    assert_eq!(code, 400);
    let json: Value = serde_json::from_slice(&body).unwrap();
    assert_eq!(json["error"]["type"], "routing_error_policy_not_found");
    assert_eq!(json["error"]["source"], "router");
    assert_eq!(json["error"]["status"], 400);
    assert_eq!(g.classifier_calls, 0);
    assert!(g.provider_calls.is_empty());
}

#[test]
fn missing_policy() {
    let mut g = gateway();
    for text in [
        r#"{"messages":[]}"#,
        r#"{"nim-llm-router":{},"messages":[]}"#,
        r#"{"nim-llm-router":{"policy":7}}"#,
        r#"{"nim-llm-router":"p1"}"#,
        r#"{"nim-llm-router":{"model":"a"}}"#,
        r#"[]"#,
    ] {
        let result = serve(&mut g, text, None, vec![], 0);
        assert!(matches!(result, Err(GatewayApiError::MissingPolicy)), "{}", text);
        assert_eq!(finish(&mut g, result).0, 400);
    }
}

#[test]
fn an_unavailable_classifier_is_503() {
    let mut g = gateway();
    let result =
        serve(&mut g, r#"{"nim-llm-router":{"policy":"p1"},"messages":[]}"#, None, vec![], 0);
    let (code, body) = finish(&mut g, result);
    assert_eq!(code, 503);
    let json: Value = serde_json::from_slice(&body).unwrap();
    assert_eq!(json["error"]["type"], "routing_error_triton_unavailable");
    assert_eq!(json["error"]["source"], "router");
    assert_eq!(g.classifier_calls, 1);
}

#[test]
fn the_envelope() {
    let params = extract_params(&parse(
        r#"{"nim-llm-router":{"policy":"p1","model":"a","threshold":0.5},"messages":[]}"#,
    ))
    .unwrap();
    assert_eq!(params.policy, "p1");
    assert_eq!(params.model, Some("a".to_string()));
    assert_eq!(params.threshold, Some(JsonNumber::decimal(false, 5, -1)));
    assert!(!needs_classifier(&params));
    let plain = extract_params(&parse(r#"{"nim-llm-router":{"policy":" p1 ","model":null}}"#)).unwrap();
    assert_eq!(plain.policy, " p1 ");
    assert_eq!(plain.model, None);
    assert_eq!(plain.threshold, None);
    assert!(needs_classifier(&plain));
    assert_eq!(resolve_policy(&config(), &plain.policy).unwrap().name, "p1");
}

#[test]
fn the_classifier_is_asked_with_the_threshold() {
    let body = parse(r#"{"messages":[],"nim-llm-router":{"policy":"p1","threshold":0.5}}"#);
    assert_eq!(
        classifier_request(&body, Some(JsonNumber::decimal(false, 5, -1))).to_text(),
        r#"{"messages":[],"nim-llm-router":{"policy":"p1","threshold":5e-1},"threshold":5e-1}"#
    );
    assert_eq!(classifier_request(&body, None).to_text(), body.to_text());
    let with = parse(r#"{"threshold":1,"x":2}"#);
    assert_eq!(
        classifier_request(&with, Some(JsonNumber::from_u64(3))).to_text(),
        r#"{"threshold":3,"x":2}"#
    );
}

#[test]
fn scores_select_the_greatest_known_name() {
    let policy = config().get_policy_by_index(0).unwrap();
    let pick = |text: &str| select_by_scores(&policy, &parse(text));
    assert_eq!(pick(r#"{"a":0.2,"b":0.8}"#), Some("b".to_string()));
    assert_eq!(pick(r#"{"a":0.8,"b":0.2}"#), Some("a".to_string()));
    assert_eq!(pick(r#"{"a":0.5,"b":0.5}"#), Some("a".to_string()));
    assert_eq!(pick(r#"{"a":0.2,"b":0.8,"c":0.9}"#), Some("b".to_string()));
    assert_eq!(pick(r#"{"c":0.9}"#), None);
    assert_eq!(pick(r#"{}"#), None);
    assert_eq!(pick(r#"[0.2,0.8]"#), None);
    assert_eq!(pick(r#"{"a":"high","b":-3}"#), Some("b".to_string()));
    assert_eq!(pick(r#"{"a":-1,"b":-3}"#), Some("a".to_string()));
    assert_eq!(pick(r#"{"a":1e-9,"b":0}"#), Some("a".to_string()));
    assert_eq!(pick(r#"{"a":2,"b":10}"#), Some("b".to_string()));
    assert_eq!(pick(r#"{" b ":1}"#), Some(" b ".to_string()));
    let scores = Json::Object(vec![
        ("b".to_string(), Json::Number(JsonNumber::decimal(false, 8, -1))),
        ("a".to_string(), Json::Number(JsonNumber::decimal(false, 80, -2))),
    ]);
    assert_eq!(select_by_scores(&policy, &scores), Some("b".to_string()));
}

#[test]
fn choosing_a_model() {
    let policy = config().get_policy_by_index(0).unwrap();
    let scores = ClassifierAnswer::Scores(parse(r#"{"a":0.2,"b":0.8}"#));
    assert_eq!(choose_model(&policy, &None, &scores).unwrap(), "b");
    assert_eq!(choose_model(&policy, &Some("a".to_string()), &scores).unwrap(), "a");
    assert_eq!(
        choose_model(&policy, &Some("a".to_string()), &ClassifierAnswer::NotAsked).unwrap(),
        "a"
    );
    let kind = |r: Result<String, GatewayApiError>| match r {
        Err(GatewayApiError::RoutingError { error_type, .. }) => error_type,
        other => panic!("unexpected {:?}", other),
    };
    assert_eq!(
        kind(choose_model(&policy, &Some("z".to_string()), &scores)),
        RoutingErrorType::ModelNotFound
    );
    assert_eq!(
        kind(choose_model(&policy, &None, &ClassifierAnswer::Scores(parse(r#"{"z":1}"#)))),
        RoutingErrorType::ModelNotFound
    );
    assert_eq!(
        kind(choose_model(&policy, &None, &ClassifierAnswer::Unavailable)),
        RoutingErrorType::TritonUnavailable
    );
    assert_eq!(
        kind(choose_model(&policy, &None, &ClassifierAnswer::NotAsked)),
        RoutingErrorType::TritonUnavailable
    );
}

#[test]
fn peers_share_a_name() {
    let mut c = config();
    c.policies[0].llms.push(llm(" a ", "m-a", "http://A2", "ka2"));
    let policy = c.get_policy_by_index(0).unwrap();
    let bases: Vec<String> = peers(&policy, "a").into_iter().map(|l| l.api_base).collect();
    assert_eq!(bases, vec!["http://A", "http://A2"]);
    assert_eq!(peers(&policy, "b").len(), 1);
    assert!(peers(&policy, "z").is_empty());
    let mut g = gateway();
    g.config = c;
    let mut seen = Vec::new();
    for _ in 0..4 {
        let result = serve(
            &mut g,
            r#"{"nim-llm-router":{"policy":"p1","model":"a"},"messages":[],"temperature":1}"#,
            None,
            vec![ok("x")],
            0,
        );
        assert!(result.is_ok());
        seen.push(g.provider_calls.last().unwrap().api_base.clone());
    }
    assert_eq!(seen, vec!["http://A", "http://A2", "http://A", "http://A2"]);
}

#[test]
fn the_body_is_rewritten_for_the_provider() {
    let b = llm("b", "m-b", "http://B", "kb");
    let body = parse(
        r#"{"messages":[{"content":"a—b…󠁁","role":"user"}],"model":"auto","nim-llm-router":{"policy":"p1"},"prompt":"“q”","stream":true}"#,
    );
    assert_eq!(
        rewrite_body(&body, &b).to_text(),
        r#"{"messages":[{"content":"a--b...","role":"user"}],"model":"m-b","prompt":"\"q\"","stream":true}"#
    );
    assert_eq!(rewrite_body(&parse("[1]"), &b).to_text(), "[1]");
    assert_eq!(rewrite_body(&parse("{}"), &b).to_text(), r#"{"model":"m-b"}"#);
    assert_eq!(
        provider_headers(&b),
        vec![
            ("Authorization".to_string(), "Bearer kb".to_string()),
            ("Content-Type".to_string(), "application/json".to_string())
        ]
    );
}

#[test]
fn outcomes_of_attempts() {
    assert_eq!(attempt_outcome(200), Outcome::Success);
    assert_eq!(attempt_outcome(204), Outcome::Success);
    assert_eq!(attempt_outcome(299), Outcome::Success);
    assert_eq!(attempt_outcome(199), Outcome::Failure { retryable: false });
    assert_eq!(attempt_outcome(300), Outcome::Failure { retryable: false });
    assert_eq!(attempt_outcome(404), Outcome::Failure { retryable: false });
    assert_eq!(attempt_outcome(429), Outcome::Failure { retryable: true });
    assert_eq!(attempt_outcome(502), Outcome::Failure { retryable: true });
    assert_eq!(attempt_outcome(501), Outcome::Failure { retryable: false });
}

#[test]
fn fingerprints_only_for_cacheable_requests() {
    let cache = ResponseCache::new(1, 1);
    let yes = parse(r#"{"messages":[],"temperature":0}"#);
    let no = parse(r#"{"messages":[],"temperature":1}"#);
    assert_eq!(cache_key_for(&cache, &yes, PATH), Some(cache.generate_key(&yes, PATH)));
    assert_eq!(cache_key_for(&cache, &no, PATH), None);
    assert!(is_streaming(&parse(r#"{"stream":true}"#)));
    assert!(!is_streaming(&parse(r#"{"stream":false}"#)));
    assert!(!is_streaming(&parse(r#"{}"#)));
}

#[test]
fn refusals_and_unknown_paths() {
    match breaker_refusal("b") {
        e @ GatewayApiError::LlmServiceError { .. } => {
            assert_eq!(e.status_code(), 503);
            assert_eq!(e.error_source().as_str(), "llm_provider");
        }
        other => panic!("unexpected {:?}", other),
    }
    let unknown = unknown_path();
    assert_eq!(unknown.status_code(), 404);
    assert_eq!(unknown.error_type(), "client_error");
    assert_eq!(unknown.error_source().as_str(), "client");
}

#[test]
fn hop_by_hop_headers() {
    for name in [
        "connection",
        "keep-alive",
        "proxy-authenticate",
        "proxy-authorization",
        "te",
        "trailers",
        "transfer-encoding",
        "upgrade",
    ] {
        assert!(is_hop_by_hop(name), "{}", name);
    }
    for name in ["content-type", "content-length", "x-request-id", "Connection", "", "t"] {
        assert!(!is_hop_by_hop(name), "{}", name);
    }
}

#[test]
fn outcomes_are_counted_by_class() {
    let mut m = Metrics::new();
    for code in [200u16, 204, 302, 399] {
        track_outcome(&mut m, code);
    }
    for code in [400u16, 404, 429, 499] {
        track_outcome(&mut m, code);
    }
    for code in [500u16, 503, 599] {
        track_outcome(&mut m, code);
    }
    for code in [600u16, 999] {
        track_outcome(&mut m, code);
    }
    assert_eq!(m.request_success, 4);
    assert_eq!(m.request_failure.get(&labels1("4XX")), 4);
    assert_eq!(m.request_failure.get(&labels1("5XX")), 3);
    assert_eq!(m.request_failure.get(&labels1("other")), 2);
}

#[test]
fn hop_by_hop_headers_do_not_pass_through() {
    let response = CachedResponse {
        status: 200,
        headers: vec![
            ("content-type".to_string(), b"application/json".to_vec()),
            ("Connection".to_string(), b"close".to_vec()),
            ("transfer-encoding".to_string(), b"chunked".to_vec()),
            ("x-request-id".to_string(), vec![0xff, 0x00]),
            ("KEEP-ALIVE".to_string(), b"timeout=5".to_vec()),
            ("content-type".to_string(), b"text/plain".to_vec()),
        ],
        body: b"body".to_vec(),
    };
    let passed = llm_router_gateway_api::router::pass_through(response);
    assert_eq!(passed.status, 200);
    assert_eq!(passed.body, b"body".to_vec());
    assert_eq!(
        passed.headers,
        vec![
            ("content-type".to_string(), b"application/json".to_vec()),
            ("x-request-id".to_string(), vec![0xff, 0x00]),
            ("content-type".to_string(), b"text/plain".to_vec()),
        ]
    );
}

#[test]
fn the_answer_and_the_cached_answer_are_without_hop_by_hop_headers() {
    let mut g = gateway();
    let text = r#"{"nim-llm-router":{"policy":"p1","model":"b"},"messages":[],"temperature":0}"#;
    let answer = CachedResponse {
        status: 200,
        headers: vec![
            ("connection".to_string(), b"close".to_vec()),
            ("content-type".to_string(), b"application/json".to_vec()),
        ],
        body: b"{}".to_vec(),
    };
    let first = serve(&mut g, text, None, vec![answer], 0).unwrap();
    let second = serve(&mut g, text, None, vec![], 1).unwrap();
    let expected = vec![("content-type".to_string(), b"application/json".to_vec())];
    assert_eq!(first.headers, expected);
    assert_eq!(second.headers, expected);
    assert_eq!(first.body, second.body);
}
