//! What the gateway reads of a failed outbound HTTP call.

use vstd::prelude::*;
use crate::error::GatewayApiError;

verus! {

/// The error of the HTTP client. Nothing of its inside is visible here.
#[verifier::external_type_specification]
#[verifier::external_body]
pub struct ExClientError(reqwest::Error);

/// Whether the error came up while connecting, as `reqwest::Error::is_connect`
/// reads it from the error.
pub uninterp spec fn connect_failure(error: reqwest::Error) -> bool;

/// Whether the error is a timeout, as `reqwest::Error::is_timeout` reads it
/// from the error.
pub uninterp spec fn timeout_failure(error: reqwest::Error) -> bool;

/// Whether the error came up while sending the request, as
/// `reqwest::Error::is_request` reads it from the error.
pub uninterp spec fn request_failure(error: reqwest::Error) -> bool;

/// The status code of the response that the error was made from, as
/// `reqwest::Error::status` reads it from the error.
pub uninterp spec fn failure_status(error: reqwest::Error) -> Option<u16>;

/// The description of the error, as its `Display` impl writes it.
pub uninterp spec fn failure_description(error: reqwest::Error) -> Seq<char>;

/// `reqwest::Error::is_connect`: whether the error came up while connecting.
pub assume_specification[ reqwest::Error::is_connect ](error: &reqwest::Error) -> (connect: bool)
    ensures
        connect == connect_failure(*error),
;

/// `reqwest::Error::is_timeout`: whether the error is a timeout.
pub assume_specification[ reqwest::Error::is_timeout ](error: &reqwest::Error) -> (timeout: bool)
    ensures
        timeout == timeout_failure(*error),
;

/// `reqwest::Error::is_request`: whether the error came up while sending the
/// request.
pub assume_specification[ reqwest::Error::is_request ](error: &reqwest::Error) -> (request: bool)
    ensures
        request == request_failure(*error),
;

/// `reqwest::Error::status`: the status code of the response that the error
/// was made from, as a number.
#[verifier::external_body]
fn status_of(error: &reqwest::Error) -> (status: Option<u16>)
    ensures
        status == failure_status(*error),
{
    error.status().map(|code| code.as_u16())
}

/// The error's own description, as its `Display` impl writes it.
#[verifier::external_body]
fn description_of(error: &reqwest::Error) -> (text: String)
    ensures
        text@ == failure_description(*error),
{
    error.to_string()
}

/// Whether a failed call is worth another attempt, given what the client
/// reports of it: a failure to connect and a timeout are; a failure with
/// a status is exactly when the status is 429, 500, 502, 503 or 504; any
/// other failure is when it came up while sending the request.
pub open spec fn transport_retryable(
    connect: bool,
    timeout: bool,
    status: Option<u16>,
    request: bool,
) -> bool {
    if connect || timeout {
        true
    } else {
        match status {
            Some(code) => crate::retry::retryable_status(code),
            None => request,
        }
    }
}

/// Whether a failed call is worth another attempt, given what the client
/// reports of it.
pub fn is_transport_failure_retryable(
    connect: bool,
    timeout: bool,
    status: Option<u16>,
    request: bool,
) -> (retryable: bool)
    ensures
        retryable == transport_retryable(connect, timeout, status, request),
{
    if connect || timeout {
        return true;
    }
    match status {
        Some(code) => crate::retry::is_retryable_error(code),
        None => request,
    }
}

/// Whether the failed call behind `error` is worth another attempt: what the
/// client reports of the error decides, as `transport_retryable` says.
pub fn is_reqwest_error_retryable(error: &reqwest::Error) -> (retryable: bool)
    ensures
        retryable == transport_retryable(
            connect_failure(*error),
            timeout_failure(*error),
            failure_status(*error),
            request_failure(*error),
        ),
{
    let connect = error.is_connect();
    let timeout = error.is_timeout();
    let status = status_of(error);
    let request = error.is_request();
    is_transport_failure_retryable(connect, timeout, status, request)
}

/// The gateway's failure for a failed outbound call: a client failure with
/// the status where the call got one, identified `http_client_error`, else an
/// infrastructure failure; the message is the client's description of the
/// error.
pub fn failure_of(error: &reqwest::Error) -> (failure: GatewayApiError)
    ensures
        match failure_status(*error) {
            Some(code) => failure matches GatewayApiError::ClientError {
                status: s,
                message: m,
                error_type: t,
            } && s == code && m@ == failure_description(*error) && t@ == "http_client_error"@,
            None => failure matches GatewayApiError::Infrastructure(m) && m@ == failure_description(
                *error,
            ),
        },
{
    let status = status_of(error);
    let text = description_of(error);
    GatewayApiError::from_transport(status, text.as_str())
}

} // verus!
