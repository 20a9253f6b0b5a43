//! The request path's decisions, in the order in which a request meets them:
//! the routing envelope, the policy, the cache, the choice of a model and of
//! an endpoint, the breaker, the outbound request, and what its outcome
//! means for the breaker and the cache.
//!
//! The caller makes the calls: it asks the classifier, calls the provider and
//! reads the clock, and hands in what came back.

use vstd::prelude::*;
use crate::cache::{
    cache_key, cacheable, is_success, CachedResponse, CachedResponseView, ResponseCache,
};
use crate::circuitbreaker::CircuitBreakerRegistry;
use crate::config::{
    lemma_llm_position_is, llm_position, llms_named, policy_position, Llm, Policy, RouterConfig,
};
use crate::error::{GatewayApiError, RoutingErrorType};
use crate::json::{
    field_views, lemma_field_views, with_key, without_key, Json, JsonNumber, JsonView,
};
use crate::metrics::Metrics;
use crate::nim::{sanitize_input, sanitized_input, sanitized_prompt, NimHelper};
use crate::retry::{retryable_status, Outcome};
use crate::text::{joined, trimmed, trimmed_eq};

verus! {

/// The name of the field that carries the routing envelope.
pub open spec fn envelope_field() -> Seq<char> {
    "nim-llm-router"@
}

/// What the routing envelope of a request asks for.
#[derive(Debug)]
pub struct RouterParams {
    pub policy: String,
    /// The logical name of the model to use, where the request picks one.
    pub model: Option<String>,
    /// The cutoff handed on to the classifier.
    pub threshold: Option<JsonNumber>,
}

/// The text of the field `key` of `value`, where it is a string.
pub open spec fn text_field(value: JsonView, key: Seq<char>) -> Option<Seq<char>> {
    match value.get(key) {
        Some(JsonView::String(s)) => Some(s),
        _ => None,
    }
}

/// The number in the field `key` of `value`, where it is a number.
pub open spec fn number_field(value: JsonView, key: Seq<char>) -> Option<JsonNumber> {
    match value.get(key) {
        Some(JsonView::Number(n)) => Some(n),
        _ => None,
    }
}

/// The envelope of a body: the value of its field `nim-llm-router`.
pub open spec fn envelope_of(body: JsonView) -> Option<JsonView> {
    body.get(envelope_field())
}

/// The policy that a body names: the `policy` of its envelope, where that is
/// a string.
pub open spec fn policy_named(body: JsonView) -> Option<Seq<char>> {
    match envelope_of(body) {
        Some(envelope) => text_field(envelope, "policy"@),
        None => None,
    }
}

/// The text of the field `key`, where it is a string.
fn get_text(value: &Json, key: &str) -> (text: Option<String>)
    ensures
        match text {
            Some(t) => text_field(value@, key@) == Some(t@),
            None => text_field(value@, key@) is None,
        },
{
    match value.get(key) {
        Some(v) => match v.as_str() {
            Some(s) => Some(s.to_owned()),
            None => None,
        },
        None => None,
    }
}

/// Reads the routing envelope of a request. A body without an envelope, or
/// whose envelope names no policy, is the failure `MissingPolicy`.
pub fn extract_params(body: &Json) -> (result: Result<RouterParams, GatewayApiError>)
    ensures
        match result {
            Ok(params) => {
                &&& policy_named(body@) == Some(params.policy@)
                &&& match params.model {
                    Some(m) => text_field(envelope_of(body@)->Some_0, "model"@) == Some(m@),
                    None => text_field(envelope_of(body@)->Some_0, "model"@) is None,
                }
                &&& params.threshold == number_field(envelope_of(body@)->Some_0, "threshold"@)
            },
            Err(e) => policy_named(body@) is None && e is MissingPolicy,
        },
{
    match body.get("nim-llm-router") {
        Some(envelope) => match get_text(envelope, "policy") {
            Some(policy) => {
                let model = get_text(envelope, "model");
                let threshold = match envelope.get("threshold") {
                    Some(t) => t.as_number(),
                    None => None,
                };
                Ok(RouterParams { policy, model, threshold })
            },
            None => Err(GatewayApiError::MissingPolicy),
        },
        None => Err(GatewayApiError::MissingPolicy),
    }
}

/// Whether `error` is a routing failure of the kind `kind`.
pub open spec fn is_routing_error(error: GatewayApiError, kind: RoutingErrorType) -> bool {
    error matches GatewayApiError::RoutingError { error_type, .. } && error_type == kind
}

/// Finds the policy of a name in the configuration. A name that no policy
/// has is the routing failure `PolicyNotFound`.
pub fn resolve_policy(config: &RouterConfig, name: &str) -> (result: Result<
    Policy,
    GatewayApiError,
>)
    ensures
        match result {
            Ok(policy) => policy_position(config.policies@, name@) < config.policies@.len()
                && policy@ == config.policies@[policy_position(config.policies@, name@)]@
                && policy.llms@ == config.policies@[policy_position(
                config.policies@,
                name@,
            )].llms@,
            Err(e) => policy_position(config.policies@, name@) == config.policies@.len()
                && is_routing_error(e, RoutingErrorType::PolicyNotFound),
        },
{
    let mut i: usize = 0;
    while i < config.policies.len()
        invariant
            i <= config.policies.len(),
            forall|k: int| 0 <= k < i ==> trimmed(config.policies@[k].name@) != trimmed(name@),
        decreases config.policies.len() - i,
    {
        if trimmed_eq(config.policies[i].name.as_str(), name) {
            proof {
                crate::config::lemma_policy_position_is(config.policies@, name@, i as int);
            }
            return Ok(config.policies[i].clone());
        }
        i += 1;
    }
    proof {
        crate::config::lemma_policy_position_is(config.policies@, name@, i as int);
    }
    Err(
        GatewayApiError::routing_error(
            joined("Policy not found: ", name).as_str(),
            RoutingErrorType::PolicyNotFound,
        ),
    )
}

/// What the classifier is asked: the request's body, and the threshold where
/// the envelope supplies one.
pub open spec fn classifier_body(body: JsonView, threshold: Option<JsonNumber>) -> JsonView {
    match (body, threshold) {
        (JsonView::Object(fields), Some(t)) => JsonView::Object(
            with_key(fields, "threshold"@, JsonView::Number(t)),
        ),
        _ => body,
    }
}

/// What the classifier is asked: see `classifier_body`.
pub fn classifier_request(body: &Json, threshold: Option<JsonNumber>) -> (request: Json)
    ensures
        request@ == classifier_body(body@, threshold),
{
    match threshold {
        Some(t) => body.with_field("threshold", Json::Number(t)),
        None => body.clone(),
    }
}

/// Whether a policy has an endpoint of the logical name `name`.
pub open spec fn has_llm(llms: Seq<Llm>, name: Seq<char>) -> bool {
    llm_position(llms, name) < llms.len()
}

/// Whether the score at `i` counts: it is a number, for a name that the
/// policy has.
pub open spec fn counts(scores: Seq<(Seq<char>, JsonView)>, llms: Seq<Llm>, i: int) -> bool {
    scores[i].1 is Number && has_llm(llms, scores[i].0)
}

/// The place of the winning score among the first `n`: the greatest of those
/// that count, and of equal ones the first.
pub open spec fn winner(scores: Seq<(Seq<char>, JsonView)>, llms: Seq<Llm>, n: nat) -> Option<int>
    decreases n,
{
    if n == 0 {
        None
    } else {
        let before = winner(scores, llms, (n - 1) as nat);
        let i = n - 1;
        if counts(scores, llms, i) {
            match before {
                Some(best) => if scores[best].1->Number_0.less_than(scores[i].1->Number_0) {
                    Some(i)
                } else {
                    Some(best)
                },
                None => Some(i),
            }
        } else {
            before
        }
    }
}

/// The winner has the greatest of the scores that count, and is the first to
/// have it: every score that counts before it is less, and none that counts
/// after it is greater. Where there is no winner, no score counts.
pub proof fn lemma_winner_is_first_greatest(
    scores: Seq<(Seq<char>, JsonView)>,
    llms: Seq<Llm>,
    n: nat,
)
    requires
        n <= scores.len(),
    ensures
        match winner(scores, llms, n) {
            Some(best) => {
                &&& 0 <= best < n
                &&& counts(scores, llms, best)
                &&& forall|i: int|
                    0 <= i < best && counts(scores, llms, i)
                        ==> (#[trigger] scores[i]).1->Number_0.less_than(
                        scores[best].1->Number_0,
                    )
                &&& forall|i: int|
                    best < i < n && counts(scores, llms, i)
                        ==> !scores[best].1->Number_0.less_than(
                        (#[trigger] scores[i]).1->Number_0,
                    )
            },
            None => forall|i: int| 0 <= i < n ==> !counts(scores, llms, i),
        },
    decreases n,
{
    if n > 0 {
        lemma_winner_is_first_greatest(scores, llms, (n - 1) as nat);
        let last = n - 1;
        match winner(scores, llms, (n - 1) as nat) {
            Some(before) => {
                if counts(scores, llms, last) && scores[before].1->Number_0.less_than(
                    scores[last].1->Number_0,
                ) {
                    assert forall|i: int| 0 <= i < last && counts(scores, llms, i) implies (
                    #[trigger] scores[i]).1->Number_0.less_than(scores[last].1->Number_0) by {
                        crate::json::lemma_less_than_orders(
                            scores[i].1->Number_0,
                            scores[before].1->Number_0,
                            scores[last].1->Number_0,
                        );
                        crate::json::lemma_less_than_orders(
                            scores[before].1->Number_0,
                            scores[i].1->Number_0,
                            scores[last].1->Number_0,
                        );
                    }
                }
            },
            None => {},
        }
    }
}

/// The logical name that the classifier's scores select under a policy: the
/// name with the winning score.
pub open spec fn selected_name(scores: JsonView, llms: Seq<Llm>) -> Option<Seq<char>> {
    match scores {
        JsonView::Object(fields) => match winner(fields, llms, fields.len()) {
            Some(best) => Some(fields[best].0),
            None => None,
        },
        _ => None,
    }
}

/// Whether the policy has an endpoint of the logical name `name`.
fn policy_has(policy: &Policy, name: &str) -> (yes: bool)
    ensures
        yes == has_llm(policy.llms@, name@),
{
    let mut i: usize = 0;
    while i < policy.llms.len()
        invariant
            i <= policy.llms.len(),
            forall|k: int| 0 <= k < i ==> trimmed(policy.llms@[k].name@) != trimmed(name@),
        decreases policy.llms.len() - i,
    {
        if trimmed_eq(policy.llms[i].name.as_str(), name) {
            proof {
                lemma_llm_position_is(policy.llms@, name@, i as int);
            }
            return true;
        }
        i += 1;
    }
    proof {
        lemma_llm_position_is(policy.llms@, name@, i as int);
    }
    false
}

/// The logical name that the classifier's scores select under `policy`: see
/// `selected_name`.
pub fn select_by_scores(policy: &Policy, scores: &Json) -> (name: Option<String>)
    ensures
        match name {
            Some(n) => selected_name(scores@, policy.llms@) == Some(n@),
            None => selected_name(scores@, policy.llms@) is None,
        },
{
    match scores {
        Json::Object(fields) => {
            let ghost views = field_views(fields@);
            proof {
                lemma_field_views(fields@);
            }
            let mut best: Option<usize> = None;
            let mut best_score = JsonNumber::from_u64(0);
            let mut i: usize = 0;
            while i < fields.len()
                invariant
                    i <= fields.len(),
                    views == field_views(fields@),
                    views.len() == fields.len(),
                    forall|k: int|
                        0 <= k < fields.len() ==> (#[trigger] views[k]) == (
                            fields[k].0@,
                            fields[k].1@,
                        ),
                    match best {
                        Some(b) => winner(views, policy.llms@, i as nat) == Some(b as int) && b < i
                            && views[b as int].1 == JsonView::Number(best_score),
                        None => winner(views, policy.llms@, i as nat) is None,
                    },
                decreases fields.len() - i,
            {
                match fields[i].1.as_number() {
                    Some(score) => {
                        if policy_has(policy, fields[i].0.as_str()) {
                            match best {
                                Some(b) => {
                                    if best_score.lt(&score) {
                                        best = Some(i);
                                        best_score = score;
                                    }
                                },
                                None => {
                                    best = Some(i);
                                    best_score = score;
                                },
                            }
                        }
                    },
                    None => {},
                }
                i += 1;
            }
            match best {
                Some(b) => Some(fields[b].0.clone()),
                None => None,
            }
        },
        _ => None,
    }
}

/// What the classifier came back with.
#[derive(Debug)]
pub enum ClassifierAnswer {
    /// It was not asked.
    NotAsked,
    /// It could not be reached, or answered with an error.
    Unavailable,
    /// Its scores: an object of logical names and numbers.
    Scores(Json),
}

/// The logical name of the model that serves a request: the model that the
/// envelope picks, which the policy has to have; else the name that the
/// classifier's scores select.
pub open spec fn chosen_model(
    llms: Seq<Llm>,
    explicit: Option<Seq<char>>,
    answer: ClassifierAnswer,
) -> Result<Seq<char>, RoutingErrorType> {
    match explicit {
        Some(model) => if has_llm(llms, model) {
            Ok(model)
        } else {
            Err(RoutingErrorType::ModelNotFound)
        },
        None => match answer {
            ClassifierAnswer::Scores(scores) => match selected_name(scores@, llms) {
                Some(name) => Ok(name),
                None => Err(RoutingErrorType::ModelNotFound),
            },
            _ => Err(RoutingErrorType::TritonUnavailable),
        },
    }
}

/// Whether the classifier has to be asked: it has unless the envelope picks
/// a model.
pub fn needs_classifier(params: &RouterParams) -> (yes: bool)
    ensures
        yes == (params.model is None),
{
    params.model.is_none()
}

/// Chooses the logical name of the model that serves a request: see
/// `chosen_model`. A model that the policy does not have, and scores that
/// select none, are the routing failure `ModelNotFound`; a classifier that
/// gave no scores is the routing failure `TritonUnavailable`.
pub fn choose_model(policy: &Policy, explicit: &Option<String>, answer: &ClassifierAnswer) -> (result:
    Result<String, GatewayApiError>)
    ensures
        match result {
            Ok(name) => chosen_model(
                policy.llms@,
                match explicit {
                    Some(m) => Some(m@),
                    None => None,
                },
                *answer,
            ) == Ok::<Seq<char>, RoutingErrorType>(name@),
            Err(e) => {
                &&& chosen_model(
                    policy.llms@,
                    match explicit {
                        Some(m) => Some(m@),
                        None => None,
                    },
                    *answer,
                ) is Err
                &&& is_routing_error(
                    e,
                    chosen_model(
                        policy.llms@,
                        match explicit {
                            Some(m) => Some(m@),
                            None => None,
                        },
                        *answer,
                    )->Err_0,
                )
            },
        },
{
    match explicit {
        Some(model) => {
            if policy_has(policy, model.as_str()) {
                Ok(model.clone())
            } else {
                Err(
                    GatewayApiError::routing_error(
                        joined("Model not found in policy: ", model.as_str()).as_str(),
                        RoutingErrorType::ModelNotFound,
                    ),
                )
            }
        },
        None => match answer {
            ClassifierAnswer::Scores(scores) => match select_by_scores(policy, scores) {
                Some(name) => Ok(name),
                None => Err(
                    GatewayApiError::routing_error(
                        "No model of the policy was scored",
                        RoutingErrorType::ModelNotFound,
                    ),
                ),
            },
            _ => Err(
                GatewayApiError::routing_error(
                    "Classifier unavailable",
                    RoutingErrorType::TritonUnavailable,
                ),
            ),
        },
    }
}

/// The endpoints of a policy with the logical name `name`: the peers among
/// which the load balancer picks.
pub fn peers(policy: &Policy, name: &str) -> (found: Vec<Llm>)
    ensures
        found@ == llms_named(policy.llms@, name@),
{
    let mut out: Vec<Llm> = Vec::new();
    let mut i: usize = 0;
    proof {
        assert(policy.llms@.take(0) =~= Seq::<Llm>::empty());
    }
    while i < policy.llms.len()
        invariant
            i <= policy.llms.len(),
            out@ == llms_named(policy.llms@.take(i as int), name@),
        decreases policy.llms.len() - i,
    {
        proof {
            let t = policy.llms@.take(i + 1);
            assert(t.drop_last() =~= policy.llms@.take(i as int));
            assert(t.last() == policy.llms@[i as int]);
        }
        if trimmed_eq(policy.llms[i].name.as_str(), name) {
            out.push(policy.llms[i].clone());
        }
        i += 1;
    }
    proof {
        assert(policy.llms@.take(policy.llms.len() as int) =~= policy.llms@);
    }
    out
}

/// The body that goes to the provider: the request's body without the
/// routing envelope, with `model` set to the endpoint's model, and with its
/// texts cleaned.
pub open spec fn forwarded_body(body: JsonView, model: Seq<char>) -> JsonView {
    let rewritten = match body {
        JsonView::Object(fields) => JsonView::Object(
            with_key(without_key(fields, envelope_field()), "model"@, JsonView::String(model)),
        ),
        other => other,
    };
    sanitized_prompt(sanitized_input(rewritten))
}

/// The body that goes to the provider: see `forwarded_body`.
pub fn rewrite_body(body: &Json, llm: &Llm) -> (forwarded: Json)
    ensures
        forwarded@ == forwarded_body(body@, llm.model@),
{
    let stripped = body.without_field("nim-llm-router");
    let mut out = stripped.with_field("model", Json::String(llm.model.clone()));
    sanitize_input(&mut out);
    NimHelper::sanitize_prompt(&mut out);
    out
}

/// The headers that go to the provider: the endpoint's key as a bearer
/// token, and the JSON content type.
pub open spec fn provider_header_list(api_key: Seq<char>) -> Seq<(Seq<char>, Seq<char>)> {
    seq![("Authorization"@, "Bearer "@ + api_key), ("Content-Type"@, "application/json"@)]
}

/// The headers that go to the provider: see `provider_header_list`.
pub fn provider_headers(llm: &Llm) -> (headers: Vec<(String, String)>)
    ensures
        crate::nim::assignments(headers@) == provider_header_list(llm.api_key@),
{
    let mut out: Vec<(String, String)> = Vec::new();
    out.push(("Authorization".to_owned(), joined("Bearer ", llm.api_key.as_str())));
    out.push(("Content-Type".to_owned(), "application/json".to_owned()));
    proof {
        assert(crate::nim::assignments(out@) =~= provider_header_list(llm.api_key@));
    }
    out
}

/// The request that goes out to a provider.
#[derive(Debug)]
pub struct Outbound {
    /// The endpoint's base followed by the request's path.
    pub url: String,
    pub headers: Vec<(String, String)>,
    pub body: Json,
    /// The logical name of the model.
    pub llm_name: String,
    /// The endpoint's base: the key of its breaker.
    pub api_base: String,
}

/// The failure of a request whose endpoint's circuit is open: a provider
/// failure with status 503 that names the model.
pub fn breaker_refusal(llm_name: &str) -> (error: GatewayApiError)
    ensures
        error matches GatewayApiError::LlmServiceError { status, provider, .. } && status == 503
            && provider@ == llm_name@,
{
    GatewayApiError::llm_error(503, "Circuit breaker is open", llm_name)
}

/// Makes the outbound request for an endpoint that was picked, unless its
/// breaker refuses. The breaker of the endpoint's base is asked at `now`; a
/// refusal is a provider failure with status 503 that names the model, and
/// nothing goes out. A request that goes out is counted for the endpoint's
/// model.
pub fn prepare_outbound(
    llm_name: &str,
    instance: &Llm,
    breakers: &mut CircuitBreakerRegistry,
    body: &Json,
    path: &str,
    now: u64,
    metrics: &mut Metrics,
) -> (result: Result<Outbound, GatewayApiError>)
    ensures
        final(breakers).differs_at(
            *old(breakers),
            instance.api_base@,
            old(breakers).breaker_or_fresh(instance.api_base@).after_ask(now as nat),
        ),
        match result {
            Ok(outbound) => {
                &&& old(breakers).breaker_or_fresh(instance.api_base@).allows(now as nat)
                &&& outbound.url@ == instance.api_base@ + path@
                &&& crate::nim::assignments(outbound.headers@) == provider_header_list(
                    instance.api_key@,
                )
                &&& outbound.body@ == forwarded_body(body@, instance.model@)
                &&& outbound.llm_name@ == llm_name@
                &&& outbound.api_base@ == instance.api_base@
                &&& final(metrics).requests_per_model.differs_at(
                    old(metrics).requests_per_model,
                    seq![instance.model@],
                    crate::metrics::wrapped_sum(
                        old(metrics).requests_per_model.value(seq![instance.model@]),
                        1,
                    ),
                )
                &&& (Metrics {
                    requests_per_model: old(metrics).requests_per_model,
                    ..*final(metrics)
                }) == *old(metrics)
            },
            Err(e) => {
                &&& !old(breakers).breaker_or_fresh(instance.api_base@).allows(now as nat)
                &&& e matches GatewayApiError::LlmServiceError { status, provider, .. }
                &&& status == 503
                &&& provider@ == llm_name@
                &&& *final(metrics) == *old(metrics)
            },
        },
{
    if !breakers.is_request_allowed(instance.api_base.as_str(), now) {
        return Err(breaker_refusal(llm_name));
    }
    crate::metrics::track_model(metrics, instance.model.as_str());
    Ok(
        Outbound {
            url: joined(instance.api_base.as_str(), path),
            headers: provider_headers(instance),
            body: rewrite_body(body, instance),
            llm_name: llm_name.to_owned(),
            api_base: instance.api_base.clone(),
        },
    )
}

/// How an attempt that got a response ended, for the retry engine: a status
/// of success is a success, any other a failure, which is retryable for the
/// statuses 429, 500, 502, 503 and 504.
pub fn attempt_outcome(status: u16) -> (outcome: Outcome)
    ensures
        outcome == if is_success(status) {
            Outcome::Success
        } else {
            Outcome::Failure { retryable: retryable_status(status) }
        },
{
    if 200 <= status && status < 300 {
        Outcome::Success
    } else {
        Outcome::Failure { retryable: crate::retry::is_retryable_error(status) }
    }
}

/// Whether a request asks for a stream.
pub fn is_streaming(body: &Json) -> (yes: bool)
    ensures
        yes == body@.field_is_bool("stream"@, true),
{
    body.field_is_bool("stream", true)
}

/// The fingerprint under which the answer to a request is cached; `None`
/// where the answer may not be cached.
pub fn cache_key_for(cache: &ResponseCache, body: &Json, path: &str) -> (key: Option<String>)
    ensures
        match key {
            Some(k) => cacheable(body@) && k@ == cache_key(body@, path@),
            None => !cacheable(body@),
        },
{
    if cache.is_cacheable(body) {
        Some(cache.generate_key(body, path))
    } else {
        None
    }
}

/// Looks a request up in the cache. A request whose answer may be cached is
/// looked up under its fingerprint: an entry whose deadline lies after `now`
/// is a hit, which is counted, and anything else a miss, which is counted. A
/// request whose answer may not be cached is not looked up and not counted.
pub fn lookup_cached(
    cache: &ResponseCache,
    body: &Json,
    path: &str,
    now: u64,
    metrics: &mut Metrics,
) -> (found: Option<CachedResponse>)
    ensures
        (match found {
            Some(response) => Some(response@),
            None => None,
        }) == (if cacheable(body@) {
            cache.answer(cache_key(body@, path@), now)
        } else {
            None
        }),
        *final(metrics) == (if cacheable(body@) {
            old(metrics).with_lookup(found is Some)
        } else {
            *old(metrics)
        }),
        match found {
            Some(response) => {
                &&& cacheable(body@)
                &&& cache.entry(cache_key(body@, path@)) is Some
                &&& now < cache.entry(cache_key(body@, path@))->Some_0.expires_at
                &&& response@ == cache.entry(cache_key(body@, path@))->Some_0.response
                &&& *final(metrics) == (Metrics {
                    cache_hit_count: crate::metrics::wrapped_sum(old(metrics).cache_hit_count, 1),
                    ..*old(metrics)
                })
            },
            None => if cacheable(body@) {
                &&& !(cache.entry(cache_key(body@, path@)) is Some && now < cache.entry(
                    cache_key(body@, path@),
                )->Some_0.expires_at)
                &&& *final(metrics) == (Metrics {
                    cache_miss_count: crate::metrics::wrapped_sum(
                        old(metrics).cache_miss_count,
                        1,
                    ),
                    ..*old(metrics)
                })
            } else {
                *final(metrics) == *old(metrics)
            },
        },
{
    match cache_key_for(cache, body, path) {
        Some(key) => cache.get(key.as_str(), now, metrics),
        None => None,
    }
}

/// What goes back to the client for the response `response` of a provider:
/// the response without the headers that hold for one hop only.
pub open spec fn answer_for(response: CachedResponseView) -> CachedResponseView {
    CachedResponseView {
        status: response.status,
        headers: passed_headers(response.headers),
        body: response.body,
    }
}

/// Takes the final response of a provider: informs the breaker of the
/// endpoint, and stores the answer to a response of success in the cache
/// where the request has a fingerprint. A response of success is answered
/// with what passes through of it; any other status is a provider failure
/// with that status that names the model.
pub fn conclude(
    breakers: &mut CircuitBreakerRegistry,
    cache: &mut ResponseCache,
    outbound: &Outbound,
    response: CachedResponse,
    key: &Option<String>,
    now: u64,
) -> (result: Result<CachedResponse, GatewayApiError>)
    ensures
        final(breakers).differs_at(
            *old(breakers),
            outbound.api_base@,
            if is_success(response.status) {
                old(breakers).breaker_or_fresh(outbound.api_base@).after_success()
            } else {
                old(breakers).breaker_or_fresh(outbound.api_base@).after_failure(now as nat)
            },
        ),
        final(cache).ttl() == old(cache).ttl(),
        final(cache).capacity() == old(cache).capacity(),
        match result {
            Ok(answer) => {
                &&& is_success(response.status)
                &&& answer@ == answer_for(response@)
                &&& match key {
                    Some(k) => final(cache).stores(*old(cache), k@, answer@, now),
                    None => final(cache).entries() == old(cache).entries(),
                }
            },
            Err(e) => {
                &&& !is_success(response.status)
                &&& final(cache).entries() == old(cache).entries()
                &&& e matches GatewayApiError::LlmServiceError { status, provider, .. }
                &&& status == response.status
                &&& provider@ == outbound.llm_name@
            },
        },
{
    if 200 <= response.status && response.status < 300 {
        breakers.record_success(outbound.api_base.as_str());
        let answer = pass_through(response);
        match key {
            Some(k) => {
                let copy = answer.clone();
                let _ = cache.set(k.as_str(), copy, now);
            },
            None => {},
        }
        Ok(answer)
    } else {
        breakers.record_failure(outbound.api_base.as_str(), now);
        Err(
            GatewayApiError::llm_error(
                response.status,
                "Provider returned an error",
                outbound.llm_name.as_str(),
            ),
        )
    }
}

/// Takes the final failure of a call that got no response: informs the
/// breaker of the endpoint.
pub fn conclude_failure(breakers: &mut CircuitBreakerRegistry, outbound: &Outbound, now: u64)
    ensures
        final(breakers).differs_at(
            *old(breakers),
            outbound.api_base@,
            old(breakers).breaker_or_fresh(outbound.api_base@).after_failure(now as nat),
        ),
{
    breakers.record_failure(outbound.api_base.as_str(), now);
}

/// The failure of a request for a path that the gateway does not serve: a
/// client failure with status 404.
pub fn unknown_path() -> (error: GatewayApiError)
    ensures
        error matches GatewayApiError::ClientError { status, .. } && status == 404,
        error.status() == 404,
{
    GatewayApiError::client_error(404, "Not found", "client_error")
}

/// The headers that hold for one hop only, in lower case. A response's other
/// headers pass through.
pub open spec fn hop_by_hop(name: Seq<char>) -> bool {
    ||| name == "connection"@
    ||| name == "keep-alive"@
    ||| name == "proxy-authenticate"@
    ||| name == "proxy-authorization"@
    ||| name == "te"@
    ||| name == "trailers"@
    ||| name == "transfer-encoding"@
    ||| name == "upgrade"@
}

/// Whether the header `name`, written in lower case, holds for one hop only.
pub fn is_hop_by_hop(name: &str) -> (yes: bool)
    ensures
        yes == hop_by_hop(name@),
{
    crate::text::str_eq(name, "connection") || crate::text::str_eq(name, "keep-alive")
        || crate::text::str_eq(name, "proxy-authenticate") || crate::text::str_eq(
        name,
        "proxy-authorization",
    ) || crate::text::str_eq(name, "te") || crate::text::str_eq(name, "trailers")
        || crate::text::str_eq(name, "transfer-encoding") || crate::text::str_eq(name, "upgrade")
}

/// The headers of `headers` that pass through: all but those whose name, in
/// lower case, holds for one hop only.
pub open spec fn passed_headers(headers: Seq<(Seq<char>, Seq<u8>)>) -> Seq<(Seq<char>, Seq<u8>)>
    decreases headers.len(),
{
    if headers.len() == 0 {
        Seq::empty()
    } else if hop_by_hop(crate::text::lowercase(headers.last().0)) {
        passed_headers(headers.drop_last())
    } else {
        passed_headers(headers.drop_last()).push(headers.last())
    }
}

/// The response that goes back to the client: the provider's, without the
/// headers that hold for one hop only.
pub fn pass_through(response: CachedResponse) -> (passed: CachedResponse)
    ensures
        passed@ == answer_for(response@),
{
    let ghost all = response@.headers;
    let mut headers: Vec<(String, Vec<u8>)> = Vec::new();
    let mut i: usize = 0;
    proof {
        assert(all.take(0) =~= Seq::<(Seq<char>, Seq<u8>)>::empty());
        assert(headers@.map_values(|h: (String, Vec<u8>)| (h.0@, h.1@)) =~= passed_headers(
            all.take(0),
        ));
    }
    while i < response.headers.len()
        invariant
            i <= response.headers.len(),
            all == response@.headers,
            headers@.map_values(|h: (String, Vec<u8>)| (h.0@, h.1@)) == passed_headers(
                all.take(i as int),
            ),
        decreases response.headers.len() - i,
    {
        let ghost before = headers@;
        proof {
            let t = all.take(i + 1);
            assert(t.drop_last() =~= all.take(i as int));
            assert(t.last() == (response.headers@[i as int].0@, response.headers@[i as int].1@));
        }
        let lowered = crate::text::to_lowercase(response.headers[i].0.as_str());
        if !is_hop_by_hop(lowered.as_str()) {
            let name = response.headers[i].0.clone();
            let value = response.headers[i].1.clone();
            headers.push((name, value));
            proof {
                assert(headers@.map_values(|h: (String, Vec<u8>)| (h.0@, h.1@))
                    =~= before.map_values(|h: (String, Vec<u8>)| (h.0@, h.1@)).push(
                    (response.headers@[i as int].0@, response.headers@[i as int].1@),
                ));
            }
        }
        i += 1;
    }
    proof {
        assert(all.take(all.len() as int) =~= all);
    }
    CachedResponse { status: response.status, headers, body: response.body }
}

} // verus!
