//! The gateway's failures: what kind each is, where it came from, which HTTP
//! status a client sees for it, and the JSON body that reports it.

use vstd::prelude::*;
use crate::json::{field_views, json_text, lemma_field_views, Json, JsonNumber, JsonView};
use crate::text::{joined, decimal, decimal_string};

verus! {

/// `http::StatusCode::from_u16` accepts exactly the codes from 100 to 999.
#[verifier::external_body]
fn status_in_range(code: u16) -> (accepted: bool)
    ensures
        accepted == (100 <= code <= 999),
{
    http::StatusCode::from_u16(code).is_ok()
}

/// The component a failure came from.
#[derive(Debug, Clone, Copy, PartialEq, Eq, Structural)]
pub enum ErrorSource {
    /// The classifier that scores the models (a Triton server).
    Triton,
    LlmProvider,
    Router,
    Client,
    Infrastructure,
}

impl ErrorSource {
    /// The tag that stands for this source in a response body.
    pub open spec fn tag(self) -> Seq<char> {
        match self {
            ErrorSource::Triton => "classifier"@,
            ErrorSource::LlmProvider => "llm_provider"@,
            ErrorSource::Router => "router"@,
            ErrorSource::Client => "client"@,
            ErrorSource::Infrastructure => "infra"@,
        }
    }

    /// The tag that stands for this source in a response body.
    pub fn as_str(&self) -> (tag: &'static str)
        ensures
            tag@ == self.tag(),
    {
        match self {
            ErrorSource::Triton => "classifier",
            ErrorSource::LlmProvider => "llm_provider",
            ErrorSource::Router => "router",
            ErrorSource::Client => "client",
            ErrorSource::Infrastructure => "infra",
        }
    }

    /// The tag as an owned string.
    pub fn to_string(&self) -> (tag: String)
        ensures
            tag@ == self.tag(),
    {
        self.as_str().to_owned()
    }
}

/// Why a request could not be routed.
#[derive(Debug, Clone, Copy, PartialEq, Eq, Structural)]
pub enum RoutingErrorType {
    PolicyNotFound,
    ModelNotFound,
    NoRoutingStrategy,
    InvalidConfiguration,
    /// The classifier could not be reached or gave no usable answer.
    TritonUnavailable,
}

impl RoutingErrorType {
    /// The HTTP status for this kind of routing failure.
    pub open spec fn status(self) -> u16 {
        match self {
            RoutingErrorType::PolicyNotFound => 400,
            RoutingErrorType::ModelNotFound => 404,
            RoutingErrorType::NoRoutingStrategy => 400,
            RoutingErrorType::InvalidConfiguration => 500,
            RoutingErrorType::TritonUnavailable => 503,
        }
    }

    /// The stable identifier of this kind of routing failure.
    pub open spec fn slug(self) -> Seq<char> {
        match self {
            RoutingErrorType::PolicyNotFound => "routing_error_policy_not_found"@,
            RoutingErrorType::ModelNotFound => "routing_error_model_not_found"@,
            RoutingErrorType::NoRoutingStrategy => "routing_error_no_routing_strategy"@,
            RoutingErrorType::InvalidConfiguration => "routing_error_invalid_configuration"@,
            RoutingErrorType::TritonUnavailable => "routing_error_triton_unavailable"@,
        }
    }
}

/// A failure of the gateway.
#[derive(Debug)]
#[allow(inconsistent_fields)]
pub enum GatewayApiError {
    /// The classifier answered with an error.
    TritonError { message: String, code: u16, details: Option<String> },
    /// A provider answered with an error, or was not asked because its
    /// circuit is open.
    LlmServiceError { status: u16, message: String, provider: String, details: Option<Json> },
    /// The request could not be routed.
    RoutingError { message: String, error_type: RoutingErrorType },
    /// The client sent something the gateway refuses.
    ClientError { status: u16, message: String, error_type: String },
    Infrastructure(String),
    /// A JSON document could not be read or written.
    Json(String),
    Io(String),
    Http(String),
    /// The transport under a connection failed.
    Hyper(String),
    InvalidRequest { message: String },
    TritonServiceError { status_code: u16, message: String },
    UnexpectedError { message: String },
    PolicyNotFound(String),
    ModelNotFound(String),
    /// The request names no policy.
    MissingPolicy,
    Other { message: String },
}

/// A response whose body is a JSON document.
#[derive(Debug)]
pub struct JsonResponse {
    pub status: u16,
    pub content_type: String,
    /// The JSON body, as text.
    pub body: String,
}

impl GatewayApiError {
    /// The component this failure came from.
    pub open spec fn source(self) -> ErrorSource {
        match self {
            GatewayApiError::TritonError { .. } => ErrorSource::Triton,
            GatewayApiError::LlmServiceError { .. } => ErrorSource::LlmProvider,
            GatewayApiError::RoutingError { .. } => ErrorSource::Router,
            GatewayApiError::ClientError { .. } => ErrorSource::Client,
            GatewayApiError::InvalidRequest { .. } => ErrorSource::Client,
            _ => ErrorSource::Infrastructure,
        }
    }

    /// The HTTP status a client sees for this failure.
    pub open spec fn status(self) -> u16 {
        match self {
            GatewayApiError::TritonError { code, .. } => if 100 <= code <= 999 {
                code
            } else {
                503
            },
            GatewayApiError::LlmServiceError { status, .. } => status,
            GatewayApiError::ClientError { status, .. } => status,
            GatewayApiError::RoutingError { error_type, .. } => error_type.status(),
            GatewayApiError::InvalidRequest { .. } => 400,
            GatewayApiError::MissingPolicy => 400,
            _ => 500,
        }
    }

    /// The stable identifier of this kind of failure.
    pub open spec fn slug(self) -> Seq<char> {
        match self {
            GatewayApiError::TritonError { .. } => "triton_error"@,
            GatewayApiError::LlmServiceError { .. } => "llm_service_error"@,
            GatewayApiError::RoutingError { error_type, .. } => error_type.slug(),
            GatewayApiError::ClientError { error_type, .. } => error_type@,
            GatewayApiError::Infrastructure(_) => "infrastructure_error"@,
            GatewayApiError::Json(_) => "json_error"@,
            GatewayApiError::Io(_) => "io_error"@,
            GatewayApiError::Http(_) => "http_error"@,
            GatewayApiError::Hyper(_) => "hyper_error"@,
            GatewayApiError::InvalidRequest { .. } => "invalid_request"@,
            GatewayApiError::TritonServiceError { .. } => "triton_service_error"@,
            GatewayApiError::UnexpectedError { .. } => "unexpected_error"@,
            GatewayApiError::PolicyNotFound(_) => "policy_not_found"@,
            GatewayApiError::ModelNotFound(_) => "model_not_found"@,
            GatewayApiError::MissingPolicy => "missing_policy"@,
            GatewayApiError::Other { message } => "other_error: "@ + message@,
        }
    }

    /// The sentence that describes this failure.
    pub open spec fn description(self) -> Seq<char> {
        match self {
            GatewayApiError::TritonError { message, .. } => "Triton Error: "@ + message@,
            GatewayApiError::LlmServiceError { message, .. } => "LLM Service Error: "@ + message@,
            GatewayApiError::RoutingError { message, .. } => "Routing Error: "@ + message@,
            GatewayApiError::ClientError { message, .. } => "Client Error: "@ + message@,
            GatewayApiError::Infrastructure(message) => "Infrastructure Error: "@ + message@,
            GatewayApiError::Json(message) => message@,
            GatewayApiError::Io(message) => message@,
            GatewayApiError::Http(message) => message@,
            GatewayApiError::Hyper(message) => message@,
            GatewayApiError::InvalidRequest { message } => "Invalid request: "@ + message@,
            GatewayApiError::TritonServiceError { status_code, message } =>
                "Triton service error ("@ + decimal(status_code as nat) + "): "@ + message@,
            GatewayApiError::UnexpectedError { message } => "Unexpected error: "@ + message@,
            GatewayApiError::PolicyNotFound(name) => "Policy not found: "@ + name@,
            GatewayApiError::ModelNotFound(name) => "Model not found: "@ + name@,
            GatewayApiError::MissingPolicy => "No policy specified in nim-llm-router params"@,
            GatewayApiError::Other { message } => "Other error: "@ + message@,
        }
    }

    /// The message that stands in the response body: the failure's own
    /// message where it carries one beside a kind, else its description.
    pub open spec fn wire_message(self) -> Seq<char> {
        match self {
            GatewayApiError::TritonError { message, .. } => message@,
            GatewayApiError::LlmServiceError { message, .. } => message@,
            GatewayApiError::RoutingError { message, .. } => message@,
            GatewayApiError::ClientError { message, .. } => message@,
            _ => self.description(),
        }
    }

    /// The fields of the `error` object in the response body: `type`,
    /// `message`, `status` and `source` for every failure; `provider` and
    /// `details` for a provider's; `code` and `details` for the classifier's.
    pub open spec fn wire_fields(self) -> Seq<(Seq<char>, JsonView)> {
        let common = seq![
            ("type"@, JsonView::String(self.slug())),
            ("message"@, JsonView::String(self.wire_message())),
            ("status"@, JsonView::Number(unsigned_number(self.status() as u64))),
            ("source"@, JsonView::String(self.source().tag())),
        ];
        match self {
            GatewayApiError::LlmServiceError { provider, details, .. } => common + seq![
                ("provider"@, JsonView::String(provider@)),
                (
                    "details"@,
                    match details {
                        Some(d) => d@,
                        None => JsonView::Null,
                    },
                ),
            ],
            GatewayApiError::TritonError { code, details, .. } => common + seq![
                ("code"@, JsonView::Number(unsigned_number(code as u64))),
                (
                    "details"@,
                    match details {
                        Some(d) => JsonView::String(d@),
                        None => JsonView::Null,
                    },
                ),
            ],
            _ => common,
        }
    }

    /// The response body: an object whose one field, `error`, holds
    /// `wire_fields`.
    pub open spec fn wire_body(self) -> JsonView {
        JsonView::Object(seq![("error"@, JsonView::Object(self.wire_fields()))])
    }

    /// The component this failure came from.
    pub fn error_source(&self) -> (source: ErrorSource)
        ensures
            source == self.source(),
    {
        match self {
            GatewayApiError::TritonError { .. } => ErrorSource::Triton,
            GatewayApiError::LlmServiceError { .. } => ErrorSource::LlmProvider,
            GatewayApiError::RoutingError { .. } => ErrorSource::Router,
            GatewayApiError::ClientError { .. } => ErrorSource::Client,
            GatewayApiError::InvalidRequest { .. } => ErrorSource::Client,
            _ => ErrorSource::Infrastructure,
        }
    }

    /// The HTTP status a client sees for this failure. A classifier code that
    /// is no HTTP status becomes 503.
    pub fn status_code(&self) -> (status: u16)
        ensures
            status == self.status(),
    {
        match self {
            GatewayApiError::TritonError { code, .. } => {
                if status_in_range(*code) {
                    *code
                } else {
                    503
                }
            },
            GatewayApiError::LlmServiceError { status, .. } => *status,
            GatewayApiError::ClientError { status, .. } => *status,
            GatewayApiError::RoutingError { error_type, .. } => match error_type {
                RoutingErrorType::PolicyNotFound => 400,
                RoutingErrorType::ModelNotFound => 404,
                RoutingErrorType::NoRoutingStrategy => 400,
                RoutingErrorType::InvalidConfiguration => 500,
                RoutingErrorType::TritonUnavailable => 503,
            },
            GatewayApiError::InvalidRequest { .. } => 400,
            GatewayApiError::MissingPolicy => 400,
            _ => 500,
        }
    }

    /// The stable identifier of this kind of failure.
    pub fn error_type(&self) -> (slug: String)
        ensures
            slug@ == self.slug(),
    {
        match self {
            GatewayApiError::TritonError { .. } => "triton_error".to_owned(),
            GatewayApiError::LlmServiceError { .. } => "llm_service_error".to_owned(),
            GatewayApiError::RoutingError { error_type, .. } => match error_type {
                RoutingErrorType::PolicyNotFound => "routing_error_policy_not_found".to_owned(),
                RoutingErrorType::ModelNotFound => "routing_error_model_not_found".to_owned(),
                RoutingErrorType::NoRoutingStrategy =>
                    "routing_error_no_routing_strategy".to_owned(),
                RoutingErrorType::InvalidConfiguration =>
                    "routing_error_invalid_configuration".to_owned(),
                RoutingErrorType::TritonUnavailable =>
                    "routing_error_triton_unavailable".to_owned(),
            },
            GatewayApiError::ClientError { error_type, .. } => error_type.clone(),
            GatewayApiError::Infrastructure(_) => "infrastructure_error".to_owned(),
            GatewayApiError::Json(_) => "json_error".to_owned(),
            GatewayApiError::Io(_) => "io_error".to_owned(),
            GatewayApiError::Http(_) => "http_error".to_owned(),
            GatewayApiError::Hyper(_) => "hyper_error".to_owned(),
            GatewayApiError::InvalidRequest { .. } => "invalid_request".to_owned(),
            GatewayApiError::TritonServiceError { .. } => "triton_service_error".to_owned(),
            GatewayApiError::UnexpectedError { .. } => "unexpected_error".to_owned(),
            GatewayApiError::PolicyNotFound(_) => "policy_not_found".to_owned(),
            GatewayApiError::ModelNotFound(_) => "model_not_found".to_owned(),
            GatewayApiError::MissingPolicy => "missing_policy".to_owned(),
            GatewayApiError::Other { message } => joined("other_error: ", message.as_str()),
        }
    }

    /// The sentence that describes this failure.
    pub fn to_string(&self) -> (text: String)
        ensures
            text@ == self.description(),
    {
        match self {
            GatewayApiError::TritonError { message, .. } => joined(
                "Triton Error: ",
                message.as_str(),
            ),
            GatewayApiError::LlmServiceError { message, .. } => joined(
                "LLM Service Error: ",
                message.as_str(),
            ),
            GatewayApiError::RoutingError { message, .. } => joined(
                "Routing Error: ",
                message.as_str(),
            ),
            GatewayApiError::ClientError { message, .. } => joined(
                "Client Error: ",
                message.as_str(),
            ),
            GatewayApiError::Infrastructure(message) => joined(
                "Infrastructure Error: ",
                message.as_str(),
            ),
            GatewayApiError::Json(message) => message.clone(),
            GatewayApiError::Io(message) => message.clone(),
            GatewayApiError::Http(message) => message.clone(),
            GatewayApiError::Hyper(message) => message.clone(),
            GatewayApiError::InvalidRequest { message } => joined(
                "Invalid request: ",
                message.as_str(),
            ),
            GatewayApiError::TritonServiceError { status_code, message } => {
                let code = decimal_string(*status_code as u64);
                let head = joined("Triton service error (", code.as_str());
                let head = joined(head.as_str(), "): ");
                joined(head.as_str(), message.as_str())
            },
            GatewayApiError::UnexpectedError { message } => joined(
                "Unexpected error: ",
                message.as_str(),
            ),
            GatewayApiError::PolicyNotFound(name) => joined("Policy not found: ", name.as_str()),
            GatewayApiError::ModelNotFound(name) => joined("Model not found: ", name.as_str()),
            GatewayApiError::MissingPolicy => "No policy specified in nim-llm-router params"
                .to_owned(),
            GatewayApiError::Other { message } => joined("Other error: ", message.as_str()),
        }
    }

    /// The message that stands in the response body.
    fn message_for_wire(&self) -> (text: String)
        ensures
            text@ == self.wire_message(),
    {
        match self {
            GatewayApiError::TritonError { message, .. } => message.clone(),
            GatewayApiError::LlmServiceError { message, .. } => message.clone(),
            GatewayApiError::RoutingError { message, .. } => message.clone(),
            GatewayApiError::ClientError { message, .. } => message.clone(),
            _ => self.to_string(),
        }
    }

    /// The JSON value of the response body.
    pub fn to_json(&self) -> (body: Json)
        ensures
            body@ == self.wire_body(),
    {
        let mut fields: Vec<(String, Json)> = Vec::new();
        fields.push(("type".to_owned(), Json::String(self.error_type())));
        fields.push(("message".to_owned(), Json::String(self.message_for_wire())));
        fields.push(("status".to_owned(), Json::unsigned(self.status_code() as u64)));
        fields.push(("source".to_owned(), Json::String(self.error_source().to_string())));
        match self {
            GatewayApiError::LlmServiceError { provider, details, .. } => {
                fields.push(("provider".to_owned(), Json::String(provider.clone())));
                let d = match details {
                    Some(d) => d.clone(),
                    None => Json::Null,
                };
                fields.push(("details".to_owned(), d));
            },
            GatewayApiError::TritonError { code, details, .. } => {
                fields.push(("code".to_owned(), Json::unsigned(*code as u64)));
                let d = match details {
                    Some(d) => Json::String(d.clone()),
                    None => Json::Null,
                };
                fields.push(("details".to_owned(), d));
            },
            _ => {},
        }
        proof {
            lemma_field_views(fields@);
            assert(field_views(fields@) =~= self.wire_fields());
        }
        let mut outer: Vec<(String, Json)> = Vec::new();
        outer.push(("error".to_owned(), Json::Object(fields)));
        proof {
            lemma_field_views(outer@);
            assert(field_views(outer@) =~= seq![("error"@, JsonView::Object(self.wire_fields()))]);
        }
        Json::Object(outer)
    }

    /// The response that reports this failure: its status, the JSON content
    /// type, and the body as canonical JSON text. It is always `Ok`.
    pub fn to_response(&self) -> (response: Result<JsonResponse, GatewayApiError>)
        ensures
            response is Ok,
            response->Ok_0.status == self.status(),
            response->Ok_0.content_type@ == "application/json"@,
            response->Ok_0.body@ == json_text(self.wire_body()),
    {
        let body = self.to_json();
        Ok(
            JsonResponse {
                status: self.status_code(),
                content_type: "application/json".to_owned(),
                body: body.to_text(),
            },
        )
    }

    /// A failure reported by the classifier, with its code.
    pub fn triton_error(message: &str, code: u16) -> (error: GatewayApiError)
        ensures
            error matches GatewayApiError::TritonError { message: m, code: c, details: d }
                && m@ == message@ && c == code && d is None,
    {
        GatewayApiError::TritonError { message: message.to_owned(), code, details: None }
    }

    /// A failure reported by a provider, with the status it answered.
    pub fn llm_error(status: u16, message: &str, provider: &str) -> (error: GatewayApiError)
        ensures
            error matches GatewayApiError::LlmServiceError {
                status: s,
                message: m,
                provider: p,
                details: d,
            } && s == status && m@ == message@ && p@ == provider@ && d is None,
    {
        GatewayApiError::LlmServiceError {
            status,
            message: message.to_owned(),
            provider: provider.to_owned(),
            details: None,
        }
    }

    /// A routing failure of the given kind.
    pub fn routing_error(message: &str, error_type: RoutingErrorType) -> (error: GatewayApiError)
        ensures
            error matches GatewayApiError::RoutingError { message: m, error_type: t } && m@
                == message@ && t == error_type,
    {
        GatewayApiError::RoutingError { message: message.to_owned(), error_type }
    }

    /// A client failure with its status and its identifier.
    pub fn client_error(status: u16, message: &str, error_type: &str) -> (error: GatewayApiError)
        ensures
            error matches GatewayApiError::ClientError { status: s, message: m, error_type: t }
                && s == status && m@ == message@ && t@ == error_type@,
    {
        GatewayApiError::ClientError {
            status,
            message: message.to_owned(),
            error_type: error_type.to_owned(),
        }
    }

    /// The failure that stands for a failed outbound HTTP call: a client
    /// failure with the status where the call got one, else an infrastructure
    /// failure.
    pub fn from_transport(status: Option<u16>, description: &str) -> (error: GatewayApiError)
        ensures
            match status {
                Some(code) => error matches GatewayApiError::ClientError {
                    status: s,
                    message: m,
                    error_type: t,
                } && s == code && m@ == description@ && t@ == "http_client_error"@,
                None => error matches GatewayApiError::Infrastructure(m) && m@ == description@,
            },
    {
        match status {
            Some(code) => GatewayApiError::client_error(code, description, "http_client_error"),
            None => GatewayApiError::Infrastructure(description.to_owned()),
        }
    }

    /// The name of the policy in the sentence a client reads when it is not
    /// found.
    pub open spec fn policy_not_found_text(name: Seq<char>) -> Seq<char> {
        "Policy '"@ + name + "' not found"@
    }

    /// The status of the short response.
    pub open spec fn short_status(self) -> u16 {
        match self {
            GatewayApiError::InvalidRequest { .. } => 400,
            GatewayApiError::PolicyNotFound(_) => 404,
            _ => self.status(),
        }
    }

    /// The message of the short response.
    pub open spec fn short_message(self) -> Seq<char> {
        match self {
            GatewayApiError::InvalidRequest { message } => message@,
            GatewayApiError::PolicyNotFound(name) => Self::policy_not_found_text(name@),
            _ => self.description(),
        }
    }

    /// The body of the short response: an `error` object with `message` and
    /// `status`.
    pub open spec fn short_body(self) -> JsonView {
        JsonView::Object(
            seq![
                (
                    "error"@,
                    JsonView::Object(
                        seq![
                            ("message"@, JsonView::String(self.short_message())),
                            (
                                "status"@,
                                JsonView::Number(unsigned_number(self.short_status() as u64)),
                            ),
                        ],
                    ),
                ),
            ],
        )
    }
}

/// The status that a client sees follows from the kind of the failure alone:
/// a classifier failure has its code where that is an HTTP status and 503
/// where not; a provider failure and a client failure have their own status;
/// a routing failure has 400 for an unknown policy or no routing strategy,
/// 404 for an unknown model, 500 for an invalid configuration and 503 for an
/// unavailable classifier; an invalid request and a missing policy have 400;
/// every other failure has 500. The response that reports a failure has that
/// status, and so has the `status` field of its body.
pub proof fn lemma_status_by_kind(error: GatewayApiError)
    ensures
        error.status() == (match error {
            GatewayApiError::TritonError { code, .. } => if 100 <= code <= 999 {
                code
            } else {
                503u16
            },
            GatewayApiError::LlmServiceError { status, .. } => status,
            GatewayApiError::ClientError { status, .. } => status,
            GatewayApiError::RoutingError { error_type, .. } => match error_type {
                RoutingErrorType::PolicyNotFound => 400u16,
                RoutingErrorType::ModelNotFound => 404u16,
                RoutingErrorType::NoRoutingStrategy => 400u16,
                RoutingErrorType::InvalidConfiguration => 500u16,
                RoutingErrorType::TritonUnavailable => 503u16,
            },
            GatewayApiError::InvalidRequest { .. } => 400u16,
            GatewayApiError::MissingPolicy => 400u16,
            _ => 500u16,
        }),
        error.wire_fields().len() >= 4,
        error.wire_fields()[0] == ("type"@, JsonView::String(error.slug())),
        error.wire_fields()[2] == (
            "status"@,
            JsonView::Number(unsigned_number(error.status() as u64)),
        ),
        error.wire_fields()[3] == ("source"@, JsonView::String(error.source().tag())),
{
}

/// The non-negative integer `n` as a JSON number.
pub open spec fn unsigned_number(n: u64) -> JsonNumber {
    JsonNumber { negative: false, mantissa: n, exponent: 0 }
}

/// What can be turned into the response a client gets.
pub trait IntoResponse {
    fn into_response(self) -> JsonResponse;
}

impl IntoResponse for GatewayApiError {
    /// The short response for this failure: an invalid request is a 400 with
    /// its own message, an unknown policy a 404 that names the policy, and
    /// any other failure its status and description.
    fn into_response(self) -> (response: JsonResponse)
        ensures
            response.status == self.short_status(),
            response.content_type@ == "application/json"@,
            response.body@ == json_text(self.short_body()),
    {
        let status: u16 = match &self {
            GatewayApiError::InvalidRequest { .. } => 400,
            GatewayApiError::PolicyNotFound(_) => 404,
            _ => self.status_code(),
        };
        let message: String = match &self {
            GatewayApiError::InvalidRequest { message } => message.clone(),
            GatewayApiError::PolicyNotFound(name) => {
                let head = joined("Policy '", name.as_str());
                joined(head.as_str(), "' not found")
            },
            _ => self.to_string(),
        };
        let mut fields: Vec<(String, Json)> = Vec::new();
        fields.push(("message".to_owned(), Json::String(message)));
        fields.push(("status".to_owned(), Json::unsigned(status as u64)));
        proof {
            lemma_field_views(fields@);
            assert(field_views(fields@) =~= seq![
                ("message"@, JsonView::String(self.short_message())),
                ("status"@, JsonView::Number(unsigned_number(self.short_status() as u64))),
            ]);
        }
        let mut outer: Vec<(String, Json)> = Vec::new();
        outer.push(("error".to_owned(), Json::Object(fields)));
        proof {
            lemma_field_views(outer@);
            assert(field_views(outer@) =~= self.short_body()->Object_0);
        }
        let body = Json::Object(outer);
        JsonResponse {
            status,
            content_type: "application/json".to_owned(),
            body: body.to_text(),
        }
    }
}

/// Why a configuration could not be loaded.
#[derive(Debug)]
pub enum ConfigError {
    MissingPolicyField { policy: String, field: String },
    MissingLlmField { llm: String, field: String },
    FileError { path: String, error: String },
    ParseError { message: String },
    Io(String),
    Yaml(String),
}

impl ConfigError {
    /// The sentence that describes this failure.
    pub open spec fn description(self) -> Seq<char> {
        match self {
            ConfigError::MissingPolicyField { policy, field } => "Missing field '"@ + field@
                + "' in policy '"@ + policy@ + "'"@,
            ConfigError::MissingLlmField { llm, field } => "Missing field '"@ + field@
                + "' in LLM '"@ + llm@ + "'"@,
            ConfigError::FileError { path, error } => "File error for '"@ + path@ + "': "@
                + error@,
            ConfigError::ParseError { message } => "Parse error: "@ + message@,
            ConfigError::Io(message) => message@,
            ConfigError::Yaml(message) => message@,
        }
    }

    /// The sentence that describes this failure.
    pub fn to_string(&self) -> (text: String)
        ensures
            text@ == self.description(),
    {
        match self {
            ConfigError::MissingPolicyField { policy, field } => {
                let t = joined("Missing field '", field.as_str());
                let t = joined(t.as_str(), "' in policy '");
                let t = joined(t.as_str(), policy.as_str());
                joined(t.as_str(), "'")
            },
            ConfigError::MissingLlmField { llm, field } => {
                let t = joined("Missing field '", field.as_str());
                let t = joined(t.as_str(), "' in LLM '");
                let t = joined(t.as_str(), llm.as_str());
                joined(t.as_str(), "'")
            },
            ConfigError::FileError { path, error } => {
                let t = joined("File error for '", path.as_str());
                let t = joined(t.as_str(), "': ");
                joined(t.as_str(), error.as_str())
            },
            ConfigError::ParseError { message } => joined("Parse error: ", message.as_str()),
            ConfigError::Io(message) => message.clone(),
            ConfigError::Yaml(message) => message.clone(),
        }
    }
}

} // verus!
