//! Health reports: which endpoint a path asks for, what a readiness check
//! probes, and how the observations add up to a status.

use vstd::prelude::*;
use crate::circuitbreaker::CircuitState;
use crate::config::{Llm, LlmView, Policy, RouterConfig};
use crate::error::{unsigned_number, GatewayApiError, JsonResponse};
use crate::json::{field_views, json_text, lemma_field_views, Json, JsonView};
use crate::text::{chars_of, joined, str_eq, substring};

verus! {

/// The health endpoint that a path asks for.
#[derive(Debug, Clone, Copy, PartialEq, Eq, Structural)]
pub enum HealthRoute {
    /// `/health`: is the process up.
    Basic,
    /// `/health/readiness`: are its collaborators up.
    Readiness,
    Unknown,
}

/// The health endpoint that `path` asks for.
pub open spec fn route_of(path: Seq<char>) -> HealthRoute {
    if path == "/health"@ {
        HealthRoute::Basic
    } else if path == "/health/readiness"@ {
        HealthRoute::Readiness
    } else {
        HealthRoute::Unknown
    }
}

/// The health endpoint that `path` asks for.
pub fn health_route(path: &str) -> (route: HealthRoute)
    ensures
        route == route_of(path@),
{
    if str_eq(path, "/health") {
        HealthRoute::Basic
    } else if str_eq(path, "/health/readiness") {
        HealthRoute::Readiness
    } else {
        HealthRoute::Unknown
    }
}

/// The seconds since the start: `now` less the start, or less zero where no
/// start was recorded; zero where the start lies after `now`.
pub fn calculate_uptime(start: Option<u64>, now: u64) -> (uptime: u64)
    ensures
        uptime == (match start {
            Some(s) => if now >= s {
                (now - s) as u64
            } else {
                0
            },
            None => now,
        }),
{
    let start_time: u64 = match start {
        Some(s) => s,
        None => 0,
    };
    if now >= start_time {
        now - start_time
    } else {
        0
    }
}

/// The name of a breaker's state in a report.
pub open spec fn state_name(state: CircuitState) -> Seq<char> {
    match state {
        CircuitState::Closed => "closed"@,
        CircuitState::HalfOpen => "half-open"@,
        CircuitState::Open => "open"@,
    }
}

/// The name of a breaker's state in a report.
pub fn breaker_state_name(state: CircuitState) -> (name: &'static str)
    ensures
        name@ == state_name(state),
{
    match state {
        CircuitState::Closed => "closed",
        CircuitState::HalfOpen => "half-open",
        CircuitState::Open => "open",
    }
}

/// One provider to probe: its endpoint, the URL that the probe fetches, and
/// the key that the probe presents.
#[derive(Debug)]
pub struct ProviderProbe {
    pub api_base: String,
    pub health_url: String,
    pub api_key: String,
}

pub struct ProbeView {
    pub api_base: Seq<char>,
    pub health_url: Seq<char>,
    pub api_key: Seq<char>,
}

impl View for ProviderProbe {
    type V = ProbeView;

    open spec fn view(&self) -> ProbeView {
        ProbeView {
            api_base: self.api_base@,
            health_url: self.health_url@,
            api_key: self.api_key@,
        }
    }
}

/// The views of a list of probes.
pub open spec fn probe_views(probes: Seq<ProviderProbe>) -> Seq<ProbeView> {
    probes.map_values(|p: ProviderProbe| p@)
}

/// `s` without the slashes at its end.
pub open spec fn without_trailing_slashes(s: Seq<char>) -> Seq<char>
    decreases s.len(),
{
    if s.len() > 0 && s.last() == '/' {
        without_trailing_slashes(s.drop_last())
    } else {
        s
    }
}

/// The probe of an endpoint: it fetches `/health` under the endpoint's base.
pub open spec fn probe_of(llm: LlmView) -> ProbeView {
    ProbeView {
        api_base: llm.api_base,
        health_url: without_trailing_slashes(llm.api_base) + "/health"@,
        api_key: llm.api_key,
    }
}

/// Whether one of `probes` is for the endpoint base `api_base`.
pub open spec fn probes_base(probes: Seq<ProbeView>, api_base: Seq<char>) -> bool {
    exists|i: int| 0 <= i < probes.len() && (#[trigger] probes[i]).api_base == api_base
}

/// `probes`, and the probe of `llm` where none of them is for its base.
pub open spec fn with_probe(probes: Seq<ProbeView>, llm: LlmView) -> Seq<ProbeView> {
    if probes_base(probes, llm.api_base) {
        probes
    } else {
        probes.push(probe_of(llm))
    }
}

/// `probes`, and the probes of `llms` in their order, one for each base.
pub open spec fn with_probes(probes: Seq<ProbeView>, llms: Seq<Llm>) -> Seq<ProbeView>
    decreases llms.len(),
{
    if llms.len() == 0 {
        probes
    } else {
        with_probe(with_probes(probes, llms.drop_last()), llms.last()@)
    }
}

/// The probes of all endpoints of `policies`: one for each distinct base, in
/// the order in which the bases first occur.
pub open spec fn probes_of(policies: Seq<Policy>) -> Seq<ProbeView>
    decreases policies.len(),
{
    if policies.len() == 0 {
        Seq::empty()
    } else {
        with_probes(probes_of(policies.drop_last()), policies.last().llms@)
    }
}

/// The URL of the classifier that a readiness check probes: that of the first
/// policy.
pub fn classifier_probe(config: &RouterConfig) -> (url: Option<String>)
    ensures
        match url {
            Some(u) => config.policies@.len() > 0 && u@ == config.policies@[0].url@,
            None => config.policies@.len() == 0,
        },
{
    if config.policies.len() > 0 {
        Some(config.policies[0].url.clone())
    } else {
        None
    }
}

/// The probe of `llm`.
fn make_probe(llm: &Llm) -> (probe: ProviderProbe)
    ensures
        probe@ == probe_of(llm@),
{
    let v = chars_of(llm.api_base.as_str());
    let mut end: usize = v.len();
    proof {
        assert(v@.take(end as int) =~= v@);
    }
    while end > 0 && v[end - 1] == '/'
        invariant
            end <= v.len(),
            without_trailing_slashes(v@.take(end as int)) == without_trailing_slashes(v@),
        decreases end,
    {
        proof {
            assert(v@.take(end as int).drop_last() =~= v@.take(end - 1));
        }
        end -= 1;
    }
    let stem = substring(&v, 0, end);
    proof {
        assert(v@.subrange(0, end as int) =~= v@.take(end as int));
    }
    ProviderProbe {
        api_base: llm.api_base.clone(),
        health_url: joined(stem.as_str(), "/health"),
        api_key: llm.api_key.clone(),
    }
}

/// Whether one of `probes` is for the endpoint base `api_base`.
fn has_probe(probes: &Vec<ProviderProbe>, api_base: &str) -> (found: bool)
    ensures
        found == probes_base(probe_views(probes@), api_base@),
{
    let mut i: usize = 0;
    while i < probes.len()
        invariant
            i <= probes.len(),
            forall|k: int| 0 <= k < i ==> probe_views(probes@)[k].api_base != api_base@,
        decreases probes.len() - i,
    {
        if str_eq(probes[i].api_base.as_str(), api_base) {
            assert(probe_views(probes@)[i as int].api_base == api_base@);
            return true;
        }
        i += 1;
    }
    false
}

/// The providers that a readiness check probes: see `probes_of`.
pub fn provider_probes(config: &RouterConfig) -> (probes: Vec<ProviderProbe>)
    ensures
        probe_views(probes@) == probes_of(config.policies@),
{
    let mut out: Vec<ProviderProbe> = Vec::new();
    let mut i: usize = 0;
    proof {
        assert(config.policies@.take(0) =~= Seq::<Policy>::empty());
        assert(probe_views(out@) =~= Seq::<ProbeView>::empty());
    }
    while i < config.policies.len()
        invariant
            i <= config.policies.len(),
            probe_views(out@) == probes_of(config.policies@.take(i as int)),
        decreases config.policies.len() - i,
    {
        let policy = &config.policies[i];
        let ghost base = probe_views(out@);
        let mut j: usize = 0;
        proof {
            assert(policy.llms@.take(0) =~= Seq::<Llm>::empty());
        }
        while j < policy.llms.len()
            invariant
                j <= policy.llms.len(),
                probe_views(out@) == with_probes(base, policy.llms@.take(j as int)),
            decreases policy.llms.len() - j,
        {
            let llm = &policy.llms[j];
            proof {
                let t = policy.llms@.take(j + 1);
                assert(t.drop_last() =~= policy.llms@.take(j as int));
                assert(t.last() == *llm);
            }
            if !has_probe(&out, llm.api_base.as_str()) {
                let ghost before = out@;
                out.push(make_probe(llm));
                proof {
                    assert(probe_views(out@) =~= probe_views(before).push(probe_of(llm@)));
                }
            }
            j += 1;
        }
        proof {
            assert(policy.llms@.take(policy.llms@.len() as int) =~= policy.llms@);
            let t = config.policies@.take(i + 1);
            assert(t.drop_last() =~= config.policies@.take(i as int));
            assert(t.last() == *policy);
        }
        i += 1;
    }
    proof {
        assert(config.policies@.take(config.policies@.len() as int) =~= config.policies@);
    }
    out
}

/// What a readiness check has observed.
#[derive(Debug)]
pub struct HealthObservation {
    /// Every breaker's endpoint and state.
    pub breakers: Vec<(String, CircuitState)>,
    /// Whether the classifier answered with success; `None` where there is no
    /// classifier to probe.
    pub classifier: Option<bool>,
    /// Every probed provider's endpoint base, and whether it answered with
    /// success.
    pub providers: Vec<(String, bool)>,
}

/// Whether one of the providers failed its probe.
pub open spec fn some_provider_down(providers: Seq<(String, bool)>) -> bool {
    exists|i: int| 0 <= i < providers.len() && !(#[trigger] providers[i]).1
}

/// Whether one of the breakers is open.
pub open spec fn some_breaker_open(breakers: Seq<(String, CircuitState)>) -> bool {
    exists|i: int| 0 <= i < breakers.len() && (#[trigger] breakers[i]).1 == CircuitState::Open
}

/// The overall status: `Critical` where the classifier is down, else
/// `Degraded` where a provider is down or a breaker is open, else `OK`.
pub open spec fn overall_status(observed: HealthObservation) -> Seq<char> {
    if observed.classifier == Some(false) {
        "Critical"@
    } else if some_provider_down(observed.providers@) || some_breaker_open(observed.breakers@) {
        "Degraded"@
    } else {
        "OK"@
    }
}

/// The `llm_providers` object of a report: each endpoint base with whether
/// it is up.
pub open spec fn providers_object(providers: Seq<(String, bool)>) -> Seq<(Seq<char>, JsonView)> {
    providers.map_values(|p: (String, bool)| (p.0@, JsonView::Bool(p.1)))
}

/// The `circuit_breakers` object of a report: each endpoint with the name of
/// its breaker's state.
pub open spec fn breakers_object(breakers: Seq<(String, CircuitState)>) -> Seq<
    (Seq<char>, JsonView),
> {
    breakers.map_values(|b: (String, CircuitState)| (b.0@, JsonView::String(state_name(b.1))))
}

/// The body of a readiness report.
pub open spec fn readiness_body(
    observed: HealthObservation,
    uptime_seconds: u64,
    version: Seq<char>,
) -> JsonView {
    JsonView::Object(
        seq![
            ("status"@, JsonView::String(overall_status(observed))),
            (
                "classifier_status"@,
                match observed.classifier {
                    Some(up) => JsonView::Bool(up),
                    None => JsonView::Null,
                },
            ),
            ("llm_providers"@, JsonView::Object(providers_object(observed.providers@))),
            ("uptime_seconds"@, JsonView::Number(unsigned_number(uptime_seconds))),
            ("version"@, JsonView::String(version)),
            ("circuit_breakers"@, JsonView::Object(breakers_object(observed.breakers@))),
        ],
    )
}

/// The body of a basic health report.
pub open spec fn basic_body(version: Seq<char>) -> JsonView {
    JsonView::Object(
        seq![("status"@, JsonView::String("OK"@)), ("version"@, JsonView::String(version))],
    )
}

/// The overall status of what was observed: see `overall_status`.
pub fn status_of(observed: &HealthObservation) -> (status: &'static str)
    ensures
        status@ == overall_status(*observed),
{
    match observed.classifier {
        Some(up) => {
            if !up {
                return "Critical";
            }
        },
        None => {},
    }
    let mut i: usize = 0;
    while i < observed.providers.len()
        invariant
            i <= observed.providers.len(),
            observed.classifier != Some(false),
            forall|k: int| 0 <= k < i ==> observed.providers@[k].1,
        decreases observed.providers.len() - i,
    {
        if !observed.providers[i].1 {
            assert(!observed.providers@[i as int].1);
            return "Degraded";
        }
        i += 1;
    }
    let mut j: usize = 0;
    while j < observed.breakers.len()
        invariant
            j <= observed.breakers.len(),
            observed.classifier != Some(false),
            !some_provider_down(observed.providers@),
            forall|k: int| 0 <= k < j ==> observed.breakers@[k].1 != CircuitState::Open,
        decreases observed.breakers.len() - j,
    {
        match observed.breakers[j].1 {
            CircuitState::Open => {
                assert(observed.breakers@[j as int].1 == CircuitState::Open);
                return "Degraded";
            },
            _ => {},
        }
        j += 1;
    }
    "OK"
}

/// The body of a readiness report, as a JSON value.
pub fn readiness_report(observed: &HealthObservation, uptime_seconds: u64, version: &str) -> (body:
    Json)
    ensures
        body@ == readiness_body(*observed, uptime_seconds, version@),
{
    let mut providers: Vec<(String, Json)> = Vec::new();
    let mut i: usize = 0;
    while i < observed.providers.len()
        invariant
            i <= observed.providers.len(),
            providers@.len() == i,
            forall|k: int|
                0 <= k < i ==> (#[trigger] providers@[k]).0@ == observed.providers@[k].0@
                    && providers@[k].1@ == JsonView::Bool(observed.providers@[k].1),
        decreases observed.providers.len() - i,
    {
        providers.push((observed.providers[i].0.clone(), Json::Bool(observed.providers[i].1)));
        i += 1;
    }
    let mut breakers: Vec<(String, Json)> = Vec::new();
    let mut j: usize = 0;
    while j < observed.breakers.len()
        invariant
            j <= observed.breakers.len(),
            breakers@.len() == j,
            forall|k: int|
                0 <= k < j ==> (#[trigger] breakers@[k]).0@ == observed.breakers@[k].0@
                    && breakers@[k].1@ == JsonView::String(state_name(observed.breakers@[k].1)),
        decreases observed.breakers.len() - j,
    {
        let name = breaker_state_name(observed.breakers[j].1);
        breakers.push((observed.breakers[j].0.clone(), Json::string(name)));
        j += 1;
    }
    proof {
        lemma_field_views(providers@);
        lemma_field_views(breakers@);
        assert(field_views(providers@) =~= providers_object(observed.providers@));
        assert(field_views(breakers@) =~= breakers_object(observed.breakers@));
    }
    let classifier = match observed.classifier {
        Some(up) => Json::Bool(up),
        None => Json::Null,
    };
    let mut fields: Vec<(String, Json)> = Vec::new();
    fields.push(("status".to_owned(), Json::string(status_of(observed))));
    fields.push(("classifier_status".to_owned(), classifier));
    fields.push(("llm_providers".to_owned(), Json::Object(providers)));
    fields.push(("uptime_seconds".to_owned(), Json::unsigned(uptime_seconds)));
    fields.push(("version".to_owned(), Json::string(version)));
    fields.push(("circuit_breakers".to_owned(), Json::Object(breakers)));
    proof {
        lemma_field_views(fields@);
        assert(field_views(fields@) =~= readiness_body(
            *observed,
            uptime_seconds,
            version@,
        )->Object_0);
    }
    Json::Object(fields)
}

/// The answer to a health request. `/health` is answered with status `OK`
/// and the version. `/health/readiness` is answered with the report of what
/// was observed. Both are 200 with a JSON body. Any other path is an invalid
/// request.
pub fn health_check(
    path: &str,
    version: &str,
    uptime_seconds: u64,
    observed: &HealthObservation,
) -> (result: Result<JsonResponse, GatewayApiError>)
    ensures
        match result {
            Ok(response) => {
                &&& response.status == 200
                &&& response.content_type@ == "application/json"@
                &&& match route_of(path@) {
                    HealthRoute::Basic => response.body@ == json_text(basic_body(version@)),
                    HealthRoute::Readiness => response.body@ == json_text(
                        readiness_body(*observed, uptime_seconds, version@),
                    ),
                    HealthRoute::Unknown => false,
                }
            },
            Err(e) => route_of(path@) == HealthRoute::Unknown && e is InvalidRequest,
        },
{
    match health_route(path) {
        HealthRoute::Basic => {
            let mut fields: Vec<(String, Json)> = Vec::new();
            fields.push(("status".to_owned(), Json::string("OK")));
            fields.push(("version".to_owned(), Json::string(version)));
            proof {
                lemma_field_views(fields@);
                assert(field_views(fields@) =~= basic_body(version@)->Object_0);
            }
            let body = Json::Object(fields);
            Ok(
                JsonResponse {
                    status: 200,
                    content_type: "application/json".to_owned(),
                    body: body.to_text(),
                },
            )
        },
        HealthRoute::Readiness => {
            let body = readiness_report(observed, uptime_seconds, version);
            Ok(
                JsonResponse {
                    status: 200,
                    content_type: "application/json".to_owned(),
                    body: body.to_text(),
                },
            )
        },
        HealthRoute::Unknown => Err(
            GatewayApiError::InvalidRequest {
                message: "Unknown health check endpoint".to_owned(),
            },
        ),
    }
}

} // verus!
