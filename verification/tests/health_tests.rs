use llm_router_gateway_api::circuitbreaker::CircuitState;
use llm_router_gateway_api::config::{Llm, Policy, RouterConfig};
use llm_router_gateway_api::error::GatewayApiError;
use llm_router_gateway_api::health::{
    breaker_state_name, calculate_uptime, classifier_probe, health_check, health_route,
    provider_probes, readiness_report, status_of, HealthObservation, HealthRoute,
};
use serde_json::Value;

fn llm(name: &str, base: &str, key: &str) -> Llm {
    Llm {
        name: name.to_string(),
        api_base: base.to_string(),
        api_key: key.to_string(),
        model: "m".to_string(),
    }
}

fn observed(
    classifier: Option<bool>,
    providers: &[(&str, bool)],
    breakers: &[(&str, CircuitState)],
) -> HealthObservation {
    HealthObservation {
        classifier,
        providers: providers.iter().map(|(k, v)| (k.to_string(), *v)).collect(),
        breakers: breakers.iter().map(|(k, v)| (k.to_string(), *v)).collect(),
    }
}

#[test]
fn routes() {
    assert_eq!(health_route("/health"), HealthRoute::Basic);
    assert_eq!(health_route("/health/readiness"), HealthRoute::Readiness);
    assert_eq!(health_route("/health/"), HealthRoute::Unknown);
    assert_eq!(health_route("/health/liveness"), HealthRoute::Unknown);
    assert_eq!(health_route("/healthz"), HealthRoute::Unknown);
    assert_eq!(health_route(""), HealthRoute::Unknown);
}

#[test]
fn uptime() {
    assert_eq!(calculate_uptime(Some(100), 160), 60);
    assert_eq!(calculate_uptime(Some(100), 100), 0);
    assert_eq!(calculate_uptime(Some(100), 99), 0);
    assert_eq!(calculate_uptime(None, 99), 99);
    assert_eq!(calculate_uptime(Some(0), u64::MAX), u64::MAX);
    assert_eq!(calculate_uptime(Some(u64::MAX), 0), 0);
}

#[test]
fn state_names() {
    assert_eq!(breaker_state_name(CircuitState::Closed), "closed");
    assert_eq!(breaker_state_name(CircuitState::HalfOpen), "half-open");
    assert_eq!(breaker_state_name(CircuitState::Open), "open");
}

#[test]
fn overall_status() {
    assert_eq!(status_of(&observed(Some(true), &[], &[])), "OK");
    assert_eq!(status_of(&observed(None, &[], &[])), "OK");
    assert_eq!(
        status_of(&observed(
            Some(true),
            &[("a", true), ("b", true)],
            &[("a", CircuitState::Closed), ("b", CircuitState::HalfOpen)]
        )),
        "OK"
    );
    assert_eq!(status_of(&observed(Some(true), &[("a", true), ("b", false)], &[])), "Degraded");
    assert_eq!(
        status_of(&observed(
            Some(true),
            &[("a", true)],
            &[("a", CircuitState::Closed), ("b", CircuitState::Open)]
        )),
        "Degraded"
    );
    assert_eq!(status_of(&observed(None, &[], &[("b", CircuitState::Open)])), "Degraded");
    assert_eq!(status_of(&observed(Some(false), &[], &[])), "Critical");
    assert_eq!(
        status_of(&observed(Some(false), &[("a", false)], &[("a", CircuitState::Open)])),
        "Critical"
    );
}

#[test]
fn basic_health_answer() {
    let response = health_check("/health", "1.2.3", 5, &observed(Some(false), &[], &[])).unwrap();
    assert_eq!(response.status, 200);
    assert_eq!(response.content_type, "application/json");
    assert_eq!(response.body, r#"{"status":"OK","version":"1.2.3"}"#);
}

#[test]
fn readiness_answer() {
    let seen = observed(
        Some(true),
        &[("http://A", true), ("http://B", false)],
        &[("http://B", CircuitState::Open), ("http://A", CircuitState::HalfOpen)],
    );
    let response = health_check("/health/readiness", "1.2.3", 77, &seen).unwrap();
    assert_eq!(response.status, 200);
    assert_eq!(response.content_type, "application/json");
    let json: Value = serde_json::from_str(&response.body).unwrap();
    assert_eq!(json["status"], "Degraded");
    assert_eq!(json["classifier_status"], true);
    assert_eq!(json["llm_providers"]["http://A"], true);
    assert_eq!(json["llm_providers"]["http://B"], false);
    assert_eq!(json["uptime_seconds"], 77);
    assert_eq!(json["version"], "1.2.3");
    assert_eq!(json["circuit_breakers"]["http://B"], "open");
    assert_eq!(json["circuit_breakers"]["http://A"], "half-open");
    assert_eq!(json.as_object().unwrap().len(), 6);
    assert_eq!(
        readiness_report(&observed(None, &[], &[]), 0, "v").to_text(),
        r#"{"status":"OK","classifier_status":null,"llm_providers":{},"uptime_seconds":0,"version":"v","circuit_breakers":{}}"#
    );
    assert_eq!(
        readiness_report(&observed(Some(false), &[], &[("e", CircuitState::Closed)]), 1, "v")
            .to_text(),
        r#"{"status":"Critical","classifier_status":false,"llm_providers":{},"uptime_seconds":1,"version":"v","circuit_breakers":{"e":"closed"}}"#
    );
}

#[test]
fn an_unknown_health_path_is_an_invalid_request() {
    match health_check("/health/liveness", "v", 0, &observed(None, &[], &[])) {
        Err(e @ GatewayApiError::InvalidRequest { .. }) => assert_eq!(e.status_code(), 400),
        other => panic!("unexpected {:?}", other.map(|r| r.status)),
    }
}

#[test]
fn probes_of_a_configuration() {
    let mut c = RouterConfig::default();
    assert_eq!(classifier_probe(&c), None);
    assert!(provider_probes(&c).is_empty());
    c.policies = vec![
        Policy {
            name: "p1".to_string(),
            url: "http://c/p1".to_string(),
            llms: vec![
                llm("a", "http://A/", "ka"),
                llm("b", "http://B", "kb"),
                llm("a2", "http://A/", "other"),
            ],
        },
        Policy {
            name: "p2".to_string(),
            url: "http://c/p2".to_string(),
            llms: vec![
                llm("b", "http://B", "kb2"),
                llm("c", "http://C///", "kc"),
                llm("d", "http://A", "kd"),
                llm("e", "/", "ke"),
                llm("f", "", "kf"),
            ],
        },
    ];
    assert_eq!(classifier_probe(&c), Some("http://c/p1".to_string()));
    let probes: Vec<(String, String, String)> = provider_probes(&c)
        .into_iter()
        .map(|p| (p.api_base, p.health_url, p.api_key))
        .collect();
    let expected: Vec<(String, String, String)> = [
        ("http://A/", "http://A/health", "ka"),
        ("http://B", "http://B/health", "kb"),
        ("http://C///", "http://C/health", "kc"),
        ("http://A", "http://A/health", "kd"),
        ("/", "/health", "ke"),
        ("", "/health", "kf"),
    ]
    .iter()
    .map(|(a, b, c)| (a.to_string(), b.to_string(), c.to_string()))
    .collect();
    assert_eq!(probes, expected);
}
