//! Admission by API key.
//!
//! The decision is made on plain values: the request's path and query, what
//! its `Authorization` header holds, and the keys that the configuration
//! accepts.

use vstd::prelude::*;
use crate::config::texts;
use crate::error::GatewayApiError;
use crate::text::{
    chars_eq, chars_of, find_char, first_index, starts_with_at, trim_bounds, trimmed,
};

verus! {

/// What a request's `Authorization` header holds.
#[derive(Debug)]
pub enum AuthHeader {
    /// The request has no such header.
    Absent,
    /// The header's value is not text of visible ASCII characters.
    Unreadable,
    /// The header's value.
    Value(String),
}

/// How the admission of a request ends.
#[derive(Debug, Clone, Copy, PartialEq, Eq, Structural)]
pub enum Admission {
    /// The request goes on.
    Admitted,
    /// The header cannot be read: 400, an invalid request.
    Malformed,
    /// No key was presented, or one that is not accepted: 401,
    /// `invalid_api_key`.
    Unauthorized,
}

/// Whether a path is served without a key: the paths that begin with
/// `/health`, and the path `/metrics`.
pub open spec fn open_path(path: Seq<char>) -> bool {
    "/health"@.is_prefix_of(path) || path == "/metrics"@
}

/// Whether a piece of a query names an API key.
pub open spec fn is_key_param(piece: Seq<char>) -> bool {
    "api_key="@.is_prefix_of(piece) || "api-key="@.is_prefix_of(piece)
}

/// The value of a piece that names an API key: what follows the name and its
/// `=`, up to the next `=`.
pub open spec fn key_param_value(piece: Seq<char>) -> Seq<char> {
    let rest = piece.skip(8);
    rest.take(first_index(rest, '='))
}

/// The key that a query presents: the value of the first of its pieces,
/// which `&` separates, that names an API key.
pub open spec fn query_key(query: Seq<char>) -> Option<Seq<char>>
    decreases query.len(),
{
    let n = first_index(query, '&');
    let piece = query.take(n);
    if is_key_param(piece) {
        Some(key_param_value(piece))
    } else if 0 <= n < query.len() {
        query_key(query.skip(n + 1))
    } else {
        None
    }
}

/// The key that a header's value presents: what follows `Bearer `, or the
/// whole value where it does not begin so; trimmed.
pub open spec fn header_key(value: Seq<char>) -> Seq<char> {
    if "Bearer "@.is_prefix_of(value) {
        trimmed(value.skip(7))
    } else {
        trimmed(value)
    }
}

/// How the admission of a request ends. A request for an open path is
/// admitted, and so is any request while no keys are configured. Otherwise
/// the request presents a key in its `Authorization` header or, where it has
/// no such header, in its query, and is admitted exactly if the key is one of
/// the accepted keys.
pub open spec fn admission(
    path: Seq<char>,
    api_keys: Option<Seq<Seq<char>>>,
    header: AuthHeader,
    query: Option<Seq<char>>,
) -> Admission {
    if open_path(path) {
        Admission::Admitted
    } else if api_keys is None || api_keys->Some_0.len() == 0 {
        Admission::Admitted
    } else {
        let presented = match header {
            AuthHeader::Value(value) => Some(header_key(value@)),
            AuthHeader::Unreadable => None,
            AuthHeader::Absent => match query {
                Some(q) => query_key(q),
                None => None,
            },
        };
        if header is Unreadable {
            Admission::Malformed
        } else if presented is Some && api_keys->Some_0.contains(presented->Some_0) {
            Admission::Admitted
        } else {
            Admission::Unauthorized
        }
    }
}

/// Whether `error` is the failure that the admission `outcome` stands for.
pub open spec fn reports_admission(error: GatewayApiError, outcome: Admission) -> bool {
    match outcome {
        Admission::Admitted => false,
        Admission::Malformed => error is InvalidRequest,
        Admission::Unauthorized => error matches GatewayApiError::ClientError {
            status,
            error_type,
            ..
        } && status == 401 && error_type@ == "invalid_api_key"@,
    }
}

/// The key that the query `query` presents.
pub fn key_from_query(query: &str) -> (key: Option<String>)
    ensures
        match key {
            Some(k) => query_key(query@) == Some(k@),
            None => query_key(query@) is None,
        },
{
    let v = chars_of(query);
    let underscore = chars_of("api_key=");
    let hyphen = chars_of("api-key=");
    proof {
        reveal_strlit("api_key=");
        reveal_strlit("api-key=");
        assert(v@.skip(0) =~= v@);
    }
    let mut from: usize = 0;
    loop
        invariant_except_break
            from <= v.len(),
            query_key(v@.skip(from as int)) == query_key(v@),
        invariant
            v@ == query@,
            underscore@ == "api_key="@,
            hyphen@ == "api-key="@,
            underscore@.len() == 8,
            hyphen@.len() == 8,
        ensures
            query_key(v@) is None,
        decreases v.len() - from,
    {
        let offset = find_char(&v, from, '&');
        let to = from + offset;
        let ghost rest = v@.skip(from as int);
        let ghost piece = rest.take(offset as int);
        let mut p: Vec<char> = Vec::new();
        crate::text::push_range(&mut p, &v, from, to);
        proof {
            assert(p@ =~= piece);
            assert(p@.skip(0) =~= p@);
        }
        if starts_with_at(&p, 0, &underscore) || starts_with_at(&p, 0, &hyphen) {
            let end = find_char(&p, 8, '=');
            let value = crate::text::substring(&p, 8, 8 + end);
            proof {
                let tail = p@.skip(8);
                assert(p@.subrange(8, 8 + end) =~= tail.take(end as int));
            }
            return Some(value);
        }
        if to < v.len() {
            proof {
                assert(rest.skip(offset + 1) =~= v@.skip(to + 1));
            }
            from = to + 1;
        } else {
            break ;
        }
    }
    None
}

/// Whether `key` is one of `keys`.
fn accepted(keys: &Vec<String>, key: &Vec<char>) -> (yes: bool)
    ensures
        yes == texts(keys@).contains(key@),
{
    let mut i: usize = 0;
    while i < keys.len()
        invariant
            i <= keys.len(),
            forall|k: int| 0 <= k < i ==> texts(keys@)[k] != key@,
        decreases keys.len() - i,
    {
        let candidate = chars_of(keys[i].as_str());
        if chars_eq(&candidate, key) {
            assert(texts(keys@)[i as int] == key@);
            return true;
        }
        i += 1;
    }
    false
}

/// Admits or refuses a request: see `admission`. A request that is not
/// admitted gets the failure that its outcome stands for.
pub fn authenticate(
    path: &str,
    api_keys: &Option<Vec<String>>,
    header: &AuthHeader,
    query: Option<&str>,
) -> (result: Result<(), GatewayApiError>)
    ensures
        match result {
            Ok(_) => admission(
                path@,
                match api_keys {
                    Some(keys) => Some(texts(keys@)),
                    None => None,
                },
                *header,
                match query {
                    Some(q) => Some(q@),
                    None => None,
                },
            ) == Admission::Admitted,
            Err(e) => reports_admission(
                e,
                admission(
                    path@,
                    match api_keys {
                        Some(keys) => Some(texts(keys@)),
                        None => None,
                    },
                    *header,
                    match query {
                        Some(q) => Some(q@),
                        None => None,
                    },
                ),
            ),
        },
{
    let p = chars_of(path);
    let health = chars_of("/health");
    let metrics = chars_of("/metrics");
    proof {
        assert(p@.skip(0) =~= p@);
    }
    if starts_with_at(&p, 0, &health) || chars_eq(&p, &metrics) {
        return Ok(());
    }
    let keys = match api_keys {
        Some(keys) => {
            if keys.len() == 0 {
                return Ok(());
            }
            keys
        },
        None => {
            return Ok(());
        },
    };
    let presented: Option<Vec<char>> = match header {
        AuthHeader::Value(value) => {
            let v = chars_of(value.as_str());
            let bearer = chars_of("Bearer ");
            proof {
                reveal_strlit("Bearer ");
                assert(v@.skip(0) =~= v@);
            }
            let mut token: Vec<char> = Vec::new();
            if starts_with_at(&v, 0, &bearer) {
                crate::text::push_range(&mut token, &v, 7, v.len());
                proof {
                    assert(token@ =~= v@.skip(7));
                }
            } else {
                crate::text::push_range(&mut token, &v, 0, v.len());
                proof {
                    assert(token@ =~= v@);
                }
            }
            let (a, b) = trim_bounds(&token);
            let mut key: Vec<char> = Vec::new();
            crate::text::push_range(&mut key, &token, a, b);
            proof {
                assert(key@ =~= trimmed(token@));
            }
            Some(key)
        },
        AuthHeader::Unreadable => {
            return Err(
                GatewayApiError::InvalidRequest {
                    message: "Invalid Authorization header format".to_owned(),
                },
            );
        },
        AuthHeader::Absent => match query {
            Some(q) => match key_from_query(q) {
                Some(k) => Some(chars_of(k.as_str())),
                None => None,
            },
            None => None,
        },
    };
    match presented {
        Some(key) => {
            if accepted(keys, &key) {
                return Ok(());
            }
        },
        None => {},
    }
    Err(GatewayApiError::client_error(401, "Invalid API key", "invalid_api_key"))
}

} // verus!
