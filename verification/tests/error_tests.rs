use llm_router_gateway_api::error::{
    ConfigError, ErrorSource, GatewayApiError, IntoResponse, RoutingErrorType,
};
use llm_router_gateway_api::json::{Json, JsonNumber};
use serde_json::Value;

fn body_of(error: &GatewayApiError) -> (u16, Value) {
    let response = error.to_response().unwrap();
    assert_eq!(response.content_type, "application/json");
    (response.status, serde_json::from_str(&response.body).unwrap())
}

fn triple(error: &GatewayApiError) -> (String, String, u64) {
    let (status, json) = body_of(error);
    assert_eq!(json["error"]["status"].as_u64().unwrap(), status as u64);
    (
        json["error"]["type"].as_str().unwrap().to_string(),
        json["error"]["source"].as_str().unwrap().to_string(),
        json["error"]["status"].as_u64().unwrap(),
    )
}

#[test]
fn test_llm_service_error() {
    let error = GatewayApiError::llm_error(402, "Insufficient credits", "OpenAI");
    let response = error.to_response().unwrap();

    assert_eq!(response.status, 402);

    let json: Value = serde_json::from_str(&response.body).unwrap();

    assert_eq!(json["error"]["type"], "llm_service_error");
    assert_eq!(json["error"]["provider"], "OpenAI");
    assert_eq!(json["error"]["status"], 402);
    assert_eq!(json["error"]["source"], "llm_provider");
}

#[test]
fn test_triton_error() {
    let error = GatewayApiError::triton_error("Model loading failed", 503);
    let response = error.to_response().unwrap();

    assert_eq!(response.status, 503);

    let json: Value = serde_json::from_str(&response.body).unwrap();

    assert_eq!(json["error"]["type"], "triton_error");
    assert_eq!(json["error"]["code"], 503);
    assert_eq!(json["error"]["source"], "classifier");
}

#[test]
fn test_routing_error() {
    let error = GatewayApiError::routing_error(
        "No appropriate model found",
        RoutingErrorType::ModelNotFound,
    );
    let response = error.to_response().unwrap();

    assert_eq!(response.status, 404);

    let json: Value = serde_json::from_str(&response.body).unwrap();

    assert_eq!(json["error"]["type"], "routing_error_model_not_found");
    assert_eq!(json["error"]["source"], "router");
}

#[test]
fn test_client_error() {
    let error =
        GatewayApiError::client_error(400, "Invalid request parameters", "validation_error");
    let response = error.to_response().unwrap();

    assert_eq!(response.status, 400);

    let json: Value = serde_json::from_str(&response.body).unwrap();

    assert_eq!(json["error"]["type"], "validation_error");
    assert_eq!(json["error"]["source"], "client");
}

#[test]
fn classifier_error_round_trip() {
    let error = GatewayApiError::triton_error("down", 502);
    assert_eq!(
        triple(&error),
        ("triton_error".to_string(), "classifier".to_string(), 502)
    );
    let (_, json) = body_of(&error);
    assert_eq!(json["error"]["message"], "down");
    assert_eq!(json["error"]["code"], 502);
    assert!(json["error"]["details"].is_null());
}

#[test]
fn classifier_code_that_is_no_status_becomes_503() {
    assert_eq!(GatewayApiError::triton_error("x", 99).status_code(), 503);
    assert_eq!(GatewayApiError::triton_error("x", 1000).status_code(), 503);
    assert_eq!(GatewayApiError::triton_error("x", 0).status_code(), 503);
    assert_eq!(GatewayApiError::triton_error("x", 100).status_code(), 100);
    assert_eq!(GatewayApiError::triton_error("x", 999).status_code(), 999);
    let error = GatewayApiError::triton_error("x", 7);
    let (status, json) = body_of(&error);
    assert_eq!(status, 503);
    assert_eq!(json["error"]["status"], 503);
    assert_eq!(json["error"]["code"], 7);
}

#[test]
fn provider_error_round_trip() {
    let error = GatewayApiError::LlmServiceError {
        status: 429,
        message: "slow down".to_string(),
        provider: "b".to_string(),
        details: Some(Json::Object(vec![(
            "retry_after".to_string(),
            Json::Number(JsonNumber::from_u64(3)),
        )])),
    };
    assert_eq!(
        triple(&error),
        ("llm_service_error".to_string(), "llm_provider".to_string(), 429)
    );
    let (_, json) = body_of(&error);
    assert_eq!(json["error"]["provider"], "b");
    assert_eq!(json["error"]["details"]["retry_after"], 3);
    assert_eq!(json["error"]["message"], "slow down");
}

#[test]
fn routing_errors_round_trip() {
    let cases = [
        (RoutingErrorType::PolicyNotFound, "routing_error_policy_not_found", 400),
        (RoutingErrorType::ModelNotFound, "routing_error_model_not_found", 404),
        (RoutingErrorType::NoRoutingStrategy, "routing_error_no_routing_strategy", 400),
        (
            RoutingErrorType::InvalidConfiguration,
            "routing_error_invalid_configuration",
            500,
        ),
        (RoutingErrorType::TritonUnavailable, "routing_error_triton_unavailable", 503),
    ];
    for (kind, slug, status) in cases {
        let error = GatewayApiError::routing_error("m", kind);
        assert_eq!(error.status_code(), status);
        assert_eq!(error.error_source(), ErrorSource::Router);
        assert_eq!(
            triple(&error),
            (slug.to_string(), "router".to_string(), status as u64)
        );
    }
}

#[test]
fn client_error_round_trip() {
    let error = GatewayApiError::client_error(429, "Too many", "rate_limited");
    assert_eq!(
        triple(&error),
        ("rate_limited".to_string(), "client".to_string(), 429)
    );
}

#[test]
fn invalid_request_is_a_client_failure_with_400() {
    let error = GatewayApiError::InvalidRequest { message: "bad".to_string() };
    assert_eq!(error.status_code(), 400);
    assert_eq!(error.error_source(), ErrorSource::Client);
    assert_eq!(
        triple(&error),
        ("invalid_request".to_string(), "client".to_string(), 400)
    );
    let (_, json) = body_of(&error);
    assert_eq!(json["error"]["message"], "Invalid request: bad");
}

#[test]
fn infrastructure_kinds_round_trip_with_500() {
    let cases: Vec<(GatewayApiError, &str)> = vec![
        (GatewayApiError::Infrastructure("disk".to_string()), "infrastructure_error"),
        (GatewayApiError::Json("eof".to_string()), "json_error"),
        (GatewayApiError::Io("pipe".to_string()), "io_error"),
        (GatewayApiError::Http("uri".to_string()), "http_error"),
        (GatewayApiError::Hyper("reset".to_string()), "hyper_error"),
        (
            GatewayApiError::TritonServiceError { status_code: 404, message: "m".to_string() },
            "triton_service_error",
        ),
        (GatewayApiError::UnexpectedError { message: "m".to_string() }, "unexpected_error"),
        (GatewayApiError::PolicyNotFound("p".to_string()), "policy_not_found"),
        (GatewayApiError::ModelNotFound("m".to_string()), "model_not_found"),
    ];
    for (error, slug) in cases {
        assert_eq!(error.status_code(), 500);
        assert_eq!(error.error_source(), ErrorSource::Infrastructure);
        assert_eq!(triple(&error), (slug.to_string(), "infra".to_string(), 500));
    }
}

#[test]
fn missing_policy_is_400() {
    let error = GatewayApiError::MissingPolicy;
    assert_eq!(error.status_code(), 400);
    assert_eq!(
        triple(&error),
        ("missing_policy".to_string(), "infra".to_string(), 400)
    );
    assert_eq!(error.to_string(), "No policy specified in nim-llm-router params");
}

#[test]
fn other_error_slug_carries_the_message() {
    let error = GatewayApiError::Other { message: "odd".to_string() };
    assert_eq!(error.error_type(), "other_error: odd");
    assert_eq!(error.to_string(), "Other error: odd");
    assert_eq!(
        triple(&error),
        ("other_error: odd".to_string(), "infra".to_string(), 500)
    );
}

#[test]
fn descriptions() {
    assert_eq!(GatewayApiError::triton_error("a", 500).to_string(), "Triton Error: a");
    assert_eq!(
        GatewayApiError::llm_error(500, "a", "p").to_string(),
        "LLM Service Error: a"
    );
    assert_eq!(
        GatewayApiError::routing_error("a", RoutingErrorType::ModelNotFound).to_string(),
        "Routing Error: a"
    );
    assert_eq!(GatewayApiError::client_error(400, "a", "t").to_string(), "Client Error: a");
    assert_eq!(
        GatewayApiError::Infrastructure("a".to_string()).to_string(),
        "Infrastructure Error: a"
    );
    assert_eq!(GatewayApiError::Io("a".to_string()).to_string(), "a");
    assert_eq!(
        GatewayApiError::TritonServiceError { status_code: 503, message: "a".to_string() }
            .to_string(),
        "Triton service error (503): a"
    );
    assert_eq!(
        GatewayApiError::PolicyNotFound("p1".to_string()).to_string(),
        "Policy not found: p1"
    );
    assert_eq!(
        GatewayApiError::ModelNotFound("m1".to_string()).to_string(),
        "Model not found: m1"
    );
}

#[test]
fn source_tags() {
    assert_eq!(ErrorSource::Triton.to_string(), "classifier");
    assert_eq!(ErrorSource::LlmProvider.to_string(), "llm_provider");
    assert_eq!(ErrorSource::Router.as_str(), "router");
    assert_eq!(ErrorSource::Client.as_str(), "client");
    assert_eq!(ErrorSource::Infrastructure.as_str(), "infra");
}

#[test]
fn message_with_quotes_and_controls_stays_valid_json() {
    let error = GatewayApiError::client_error(400, "say \"hi\"\\\n\tnow\u{1}", "t");
    let (_, json) = body_of(&error);
    assert_eq!(json["error"]["message"], "say \"hi\"\\\n\tnow\u{1}");
}

#[test]
fn short_response_for_invalid_request() {
    let response = GatewayApiError::InvalidRequest { message: "bad header".to_string() }
        .into_response();
    assert_eq!(response.status, 400);
    assert_eq!(response.content_type, "application/json");
    let json: Value = serde_json::from_str(&response.body).unwrap();
    assert_eq!(json["error"]["message"], "bad header");
    assert_eq!(json["error"]["status"], 400);
}

#[test]
fn short_response_for_unknown_policy() {
    let response = GatewayApiError::PolicyNotFound("p9".to_string()).into_response();
    assert_eq!(response.status, 404);
    let json: Value = serde_json::from_str(&response.body).unwrap();
    assert_eq!(json["error"]["message"], "Policy 'p9' not found");
    assert_eq!(json["error"]["status"], 404);
}

#[test]
fn short_response_for_other_failures() {
    let response = GatewayApiError::llm_error(503, "open", "b").into_response();
    assert_eq!(response.status, 503);
    let json: Value = serde_json::from_str(&response.body).unwrap();
    assert_eq!(json["error"]["message"], "LLM Service Error: open");
    assert_eq!(json["error"]["status"], 503);
}

#[test]
fn transport_failure_with_and_without_status() {
    match GatewayApiError::from_transport(Some(502), "bad gateway") {
        GatewayApiError::ClientError { status, message, error_type } => {
            assert_eq!(status, 502);
            assert_eq!(message, "bad gateway");
            assert_eq!(error_type, "http_client_error");
        }
        other => panic!("unexpected {:?}", other),
    }
    match GatewayApiError::from_transport(None, "refused") {
        GatewayApiError::Infrastructure(message) => assert_eq!(message, "refused"),
        other => panic!("unexpected {:?}", other),
    }
}

#[test]
fn config_error_descriptions() {
    assert_eq!(
        ConfigError::MissingPolicyField { policy: "".to_string(), field: "name".to_string() }
            .to_string(),
        "Missing field 'name' in policy ''"
    );
    assert_eq!(
        ConfigError::MissingLlmField { llm: "a".to_string(), field: "model".to_string() }
            .to_string(),
        "Missing field 'model' in LLM 'a'"
    );
    assert_eq!(
        ConfigError::FileError { path: "/x".to_string(), error: "gone".to_string() }
            .to_string(),
        "File error for '/x': gone"
    );
    assert_eq!(
        ConfigError::ParseError { message: "line 3".to_string() }.to_string(),
        "Parse error: line 3"
    );
    assert_eq!(ConfigError::Io("io".to_string()).to_string(), "io");
    assert_eq!(ConfigError::Yaml("yaml".to_string()).to_string(), "yaml");
}
