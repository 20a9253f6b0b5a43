//! The gateway's counters, held as plain values: a sink that the request path
//! updates and that an exporter reads.
//!
//! A counter wraps around at `u64::MAX`, as an atomic counter does.

use vstd::prelude::*;
use crate::config::texts;
use crate::json::{Json, JsonView};
use crate::text::str_eq;

verus! {

/// `count + by`, wrapped around at `u64::MAX`.
pub open spec fn wrapped_sum(count: u64, by: u64) -> u64 {
    if count + by <= u64::MAX {
        (count + by) as u64
    } else {
        (count + by - u64::MAX - 1) as u64
    }
}

/// `count + by`, wrapped around at `u64::MAX`.
pub fn wrapping_sum(count: u64, by: u64) -> (sum: u64)
    ensures
        sum == wrapped_sum(count, by),
{
    if by <= u64::MAX - count {
        count + by
    } else {
        by - (u64::MAX - count) - 1
    }
}

/// The count in the first row of `rows` with the label values `labels`; zero
/// where no row has them.
pub open spec fn count_of(rows: Seq<(Vec<String>, u64)>, labels: Seq<Seq<char>>) -> u64
    decreases rows.len(),
{
    if rows.len() == 0 {
        0
    } else if texts(rows[0].0@) == labels {
        rows[0].1
    } else {
        count_of(rows.drop_first(), labels)
    }
}

/// The place of the first row with the label values `labels`, or the number
/// of rows where no row has them.
pub open spec fn row_position(rows: Seq<(Vec<String>, u64)>, labels: Seq<Seq<char>>) -> int
    decreases rows.len(),
{
    if rows.len() == 0 || texts(rows[0].0@) == labels {
        0
    } else {
        1 + row_position(rows.drop_first(), labels)
    }
}

/// A place that holds the first row with `labels`, or the end where no row
/// has them, is `row_position`, and `count_of` is the count there.
proof fn lemma_row_position_is(
    rows: Seq<(Vec<String>, u64)>,
    labels: Seq<Seq<char>>,
    at: int,
)
    requires
        0 <= at <= rows.len(),
        at < rows.len() ==> texts(rows[at].0@) == labels,
        forall|k: int| 0 <= k < at ==> texts(rows[k].0@) != labels,
    ensures
        row_position(rows, labels) == at,
        count_of(rows, labels) == if at < rows.len() {
            rows[at].1
        } else {
            0
        },
    decreases rows.len(),
{
    if rows.len() == 0 || texts(rows[0].0@) == labels {
    } else {
        assert forall|k: int| 0 <= k < at - 1 implies texts(rows.drop_first()[k].0@)
            != labels by {
            assert(rows.drop_first()[k] == rows[k + 1]);
        }
        lemma_row_position_is(rows.drop_first(), labels, at - 1);
    }
}

/// `row_position` lies within the rows; a row there has the labels and none
/// before it has.
proof fn lemma_row_position(rows: Seq<(Vec<String>, u64)>, labels: Seq<Seq<char>>)
    ensures
        0 <= row_position(rows, labels) <= rows.len(),
        row_position(rows, labels) < rows.len() ==> texts(rows[row_position(rows, labels)].0@)
            == labels,
        forall|k: int| 0 <= k < row_position(rows, labels) ==> texts(rows[k].0@) != labels,
    decreases rows.len(),
{
    if rows.len() == 0 || texts(rows[0].0@) == labels {
    } else {
        lemma_row_position(rows.drop_first(), labels);
        assert forall|k: int| 0 <= k < row_position(rows, labels) implies texts(rows[k].0@)
            != labels by {
            if k > 0 {
                assert(rows.drop_first()[k - 1] == rows[k]);
            }
        }
    }
}

/// Whether two lists of label values hold the same texts.
fn labels_eq(a: &Vec<String>, b: &Vec<String>) -> (same: bool)
    ensures
        same == (texts(a@) == texts(b@)),
{
    if a.len() != b.len() {
        assert(texts(a@).len() != texts(b@).len());
        return false;
    }
    let mut i: usize = 0;
    while i < a.len()
        invariant
            i <= a.len(),
            a.len() == b.len(),
            forall|k: int| 0 <= k < i ==> a@[k]@ == b@[k]@,
        decreases a.len() - i,
    {
        if !str_eq(a[i].as_str(), b[i].as_str()) {
            assert(texts(a@)[i as int] != texts(b@)[i as int]);
            return false;
        }
        i += 1;
    }
    assert(texts(a@) =~= texts(b@));
    true
}

/// A family of counters, one for each combination of label values.
#[derive(Debug)]
pub struct LabelledCounter {
    rows: Vec<(Vec<String>, u64)>,
}

impl LabelledCounter {
    /// The count for the label values `labels`: zero until it is first
    /// increased.
    pub closed spec fn value(self, labels: Seq<Seq<char>>) -> u64 {
        count_of(self.rows@, labels)
    }

    /// The counters are those of `before`, but for `labels`, whose count is
    /// `count`.
    pub open spec fn differs_at(
        self,
        before: LabelledCounter,
        labels: Seq<Seq<char>>,
        count: u64,
    ) -> bool {
        &&& self.value(labels) == count
        &&& forall|other: Seq<Seq<char>>|
            other != labels ==> #[trigger] self.value(other) == before.value(other)
    }

    /// A family in which every count is zero.
    pub fn new() -> (counter: LabelledCounter)
        ensures
            forall|labels: Seq<Seq<char>>| #[trigger] counter.value(labels) == 0,
    {
        LabelledCounter { rows: Vec::new() }
    }

    /// The count for `labels`.
    pub fn get(&self, labels: &Vec<String>) -> (count: u64)
        ensures
            count == self.value(texts(labels@)),
    {
        let at = self.find(labels);
        if at < self.rows.len() {
            self.rows[at].1
        } else {
            0
        }
    }

    /// The place of the row for `labels`.
    fn find(&self, labels: &Vec<String>) -> (at: usize)
        ensures
            at == row_position(self.rows@, texts(labels@)),
            at <= self.rows@.len(),
            self.value(texts(labels@)) == if at < self.rows@.len() {
                self.rows@[at as int].1
            } else {
                0
            },
    {
        let mut i: usize = 0;
        while i < self.rows.len()
            invariant
                i <= self.rows.len(),
                forall|k: int| 0 <= k < i ==> texts(self.rows@[k].0@) != texts(labels@),
            decreases self.rows.len() - i,
        {
            if labels_eq(&self.rows[i].0, labels) {
                proof {
                    lemma_row_position_is(self.rows@, texts(labels@), i as int);
                }
                return i;
            }
            i += 1;
        }
        proof {
            lemma_row_position_is(self.rows@, texts(labels@), i as int);
        }
        i
    }

    /// Sets the count for `labels`.
    fn put(&mut self, labels: Vec<String>, count: u64)
        ensures
            final(self).differs_at(*old(self), texts(labels@), count),
    {
        let ghost key = texts(labels@);
        let ghost before = self.rows@;
        let at = self.find(&labels);
        if at < self.rows.len() {
            self.rows.set(at, (labels, count));
        } else {
            self.rows.push((labels, count));
        }
        proof {
            let after = self.rows@;
            lemma_row_position(before, key);
            lemma_row_position_is(after, key, at as int);
            assert forall|other: Seq<Seq<char>>| other != key implies count_of(after, other)
                == count_of(before, other) by {
                lemma_row_position(before, other);
                let p = row_position(before, other);
                lemma_row_position_is(before, other, p);
                let q = if p < before.len() {
                    p
                } else {
                    after.len() as int
                };
                assert forall|k: int| 0 <= k < q implies texts(after[k].0@) != other by {
                    if k < before.len() && k != at {
                        assert(after[k] == before[k]);
                    }
                }
                lemma_row_position_is(after, other, q);
            }
        }
    }

    /// The counts, one row for each combination of label values that was
    /// ever set: every count that is not zero stands in a row with its label
    /// values.
    pub fn rows(&self) -> (rows: Vec<(Vec<String>, u64)>)
        ensures
            forall|labels: Seq<Seq<char>>|
                #[trigger] self.value(labels) != 0 ==> exists|i: int|
                    0 <= i < rows@.len() && texts((#[trigger] rows@[i]).0@) == labels
                        && rows@[i].1 == self.value(labels),
    {
        let mut out: Vec<(Vec<String>, u64)> = Vec::new();
        let mut i: usize = 0;
        while i < self.rows.len()
            invariant
                i <= self.rows.len(),
                out@.len() == i,
                forall|k: int|
                    0 <= k < i ==> texts((#[trigger] out@[k]).0@) == texts(self.rows@[k].0@)
                        && out@[k].1 == self.rows@[k].1,
            decreases self.rows.len() - i,
        {
            let labels = crate::config::clone_strings(&self.rows[i].0);
            out.push((labels, self.rows[i].1));
            i += 1;
        }
        proof {
            assert forall|labels: Seq<Seq<char>>| #[trigger]
                self.value(labels) != 0 implies exists|i: int|
                0 <= i < out@.len() && texts((#[trigger] out@[i]).0@) == labels && out@[i].1
                    == self.value(labels) by {
                lemma_row_position(self.rows@, labels);
                let p = row_position(self.rows@, labels);
                lemma_row_position_is(self.rows@, labels, p);
                assert(texts(out@[p].0@) == labels);
            }
        }
        out
    }

    /// Increases the count for `labels` by `by`.
    pub fn inc_by(&mut self, labels: Vec<String>, by: u64)
        ensures
            final(self).differs_at(
                *old(self),
                texts(labels@),
                wrapped_sum(old(self).value(texts(labels@)), by),
            ),
    {
        let count = self.get(&labels);
        self.put(labels, wrapping_sum(count, by));
    }

    /// Increases the count for `labels` by one.
    pub fn inc(&mut self, labels: Vec<String>)
        ensures
            final(self).differs_at(
                *old(self),
                texts(labels@),
                wrapped_sum(old(self).value(texts(labels@)), 1),
            ),
    {
        self.inc_by(labels, 1);
    }

    /// Sets the count for `labels` back to zero.
    pub fn reset(&mut self, labels: Vec<String>)
        ensures
            final(self).differs_at(*old(self), texts(labels@), 0),
    {
        self.put(labels, 0);
    }
}

/// The two label values `a`, `b`.
pub open spec fn label_pair(a: Seq<char>, b: Seq<char>) -> Seq<Seq<char>> {
    seq![a, b]
}

/// The label values `a`.
pub fn labels1(a: &str) -> (labels: Vec<String>)
    ensures
        texts(labels@) == seq![a@],
{
    let mut v: Vec<String> = Vec::new();
    v.push(a.to_owned());
    proof {
        assert(texts(v@) =~= seq![a@]);
    }
    v
}

/// The label values `a`, `b`.
pub fn labels2(a: &str, b: &str) -> (labels: Vec<String>)
    ensures
        texts(labels@) == seq![a@, b@],
{
    let mut v: Vec<String> = Vec::new();
    v.push(a.to_owned());
    v.push(b.to_owned());
    proof {
        assert(texts(v@) =~= seq![a@, b@]);
    }
    v
}

/// The counters that the request path updates.
#[derive(Debug)]
pub struct Metrics {
    /// `num_requests`: all requests taken in.
    pub num_requests: u64,
    /// `requests_per_policy`, by policy.
    pub requests_per_policy: LabelledCounter,
    /// `requests_per_model`, by the model that a request was sent to.
    pub requests_per_model: LabelledCounter,
    /// `request_success_total`.
    pub request_success: u64,
    /// `request_failure_total`, by the class of the status: `4XX`, `5XX` or
    /// `other`.
    pub request_failure: LabelledCounter,
    /// `routing_policy_usage`, by policy.
    pub routing_policy_usage: LabelledCounter,
    /// `llm_token_usage`, by provider name and category.
    pub token_usage: LabelledCounter,
    /// `llm_retry_count`, by provider name.
    pub retry_count: LabelledCounter,
    pub cache_hit_count: u64,
    pub cache_miss_count: u64,
    /// `cache_size`: the number of entries in the response cache.
    pub cache_size: u64,
    /// `circuit_breaker_open`, by endpoint.
    pub circuit_breaker_open: LabelledCounter,
    /// `circuit_breaker_status`, by endpoint and status: one for the current
    /// status, zero for the others.
    pub circuit_breaker_status: LabelledCounter,
    /// `load_balancer_usage`, by provider name and endpoint.
    pub load_balancer_usage: LabelledCounter,
}

impl Metrics {
    /// The counters once a lookup in the cache was counted: as a hit, or as a
    /// miss.
    pub open spec fn with_lookup(self, hit: bool) -> Metrics {
        if hit {
            Metrics { cache_hit_count: wrapped_sum(self.cache_hit_count, 1), ..self }
        } else {
            Metrics { cache_miss_count: wrapped_sum(self.cache_miss_count, 1), ..self }
        }
    }

    /// Counters that are all zero.
    pub fn new() -> (metrics: Metrics)
        ensures
            metrics.num_requests == 0,
            metrics.request_success == 0,
            metrics.cache_hit_count == 0,
            metrics.cache_miss_count == 0,
            metrics.cache_size == 0,
            forall|labels: Seq<Seq<char>>|
                #[trigger] metrics.requests_per_policy.value(labels) == 0,
            forall|labels: Seq<Seq<char>>| #[trigger] metrics.requests_per_model.value(labels) == 0,
            forall|labels: Seq<Seq<char>>| #[trigger] metrics.request_failure.value(labels) == 0,
            forall|labels: Seq<Seq<char>>|
                #[trigger] metrics.routing_policy_usage.value(labels) == 0,
            forall|labels: Seq<Seq<char>>| #[trigger] metrics.token_usage.value(labels) == 0,
            forall|labels: Seq<Seq<char>>| #[trigger] metrics.retry_count.value(labels) == 0,
            forall|labels: Seq<Seq<char>>|
                #[trigger] metrics.circuit_breaker_open.value(labels) == 0,
            forall|labels: Seq<Seq<char>>|
                #[trigger] metrics.circuit_breaker_status.value(labels) == 0,
            forall|labels: Seq<Seq<char>>|
                #[trigger] metrics.load_balancer_usage.value(labels) == 0,
    {
        Metrics {
            num_requests: 0,
            requests_per_policy: LabelledCounter::new(),
            requests_per_model: LabelledCounter::new(),
            request_success: 0,
            request_failure: LabelledCounter::new(),
            routing_policy_usage: LabelledCounter::new(),
            token_usage: LabelledCounter::new(),
            retry_count: LabelledCounter::new(),
            cache_hit_count: 0,
            cache_miss_count: 0,
            cache_size: 0,
            circuit_breaker_open: LabelledCounter::new(),
            circuit_breaker_status: LabelledCounter::new(),
            load_balancer_usage: LabelledCounter::new(),
        }
    }

    /// Counts one cache hit.
    pub fn cache_hit(&mut self)
        ensures
            *final(self) == (Metrics {
                cache_hit_count: wrapped_sum(old(self).cache_hit_count, 1),
                ..*old(self)
            }),
    {
        self.cache_hit_count = wrapping_sum(self.cache_hit_count, 1);
    }

    /// Counts one cache miss.
    pub fn cache_miss(&mut self)
        ensures
            *final(self) == (Metrics {
                cache_miss_count: wrapped_sum(old(self).cache_miss_count, 1),
                ..*old(self)
            }),
    {
        self.cache_miss_count = wrapping_sum(self.cache_miss_count, 1);
    }
}

/// The class of a status under which a failed request is counted: `4XX` for
/// the statuses from 400 to 499, `5XX` for those from 500 to 599, `other`
/// for the rest.
pub open spec fn failure_class(status: u16) -> Seq<char> {
    if 400 <= status <= 499 {
        "4XX"@
    } else if 500 <= status <= 599 {
        "5XX"@
    } else {
        "other"@
    }
}

/// Counts one request taken in.
pub fn track_request(metrics: &mut Metrics)
    ensures
        *final(metrics) == (Metrics {
            num_requests: wrapped_sum(old(metrics).num_requests, 1),
            ..*old(metrics)
        }),
{
    metrics.num_requests = wrapping_sum(metrics.num_requests, 1);
}

/// Counts one request routed under `policy`: in the requests of the policy
/// and in its usage.
pub fn track_policy(metrics: &mut Metrics, policy: &str)
    ensures
        final(metrics).requests_per_policy.differs_at(
            old(metrics).requests_per_policy,
            seq![policy@],
            wrapped_sum(old(metrics).requests_per_policy.value(seq![policy@]), 1),
        ),
        final(metrics).routing_policy_usage.differs_at(
            old(metrics).routing_policy_usage,
            seq![policy@],
            wrapped_sum(old(metrics).routing_policy_usage.value(seq![policy@]), 1),
        ),
        (Metrics {
            requests_per_policy: old(metrics).requests_per_policy,
            routing_policy_usage: old(metrics).routing_policy_usage,
            ..*final(metrics)
        }) == *old(metrics),
{
    metrics.requests_per_policy.inc(labels1(policy));
    metrics.routing_policy_usage.inc(labels1(policy));
}

/// Counts one request sent to `model`.
pub fn track_model(metrics: &mut Metrics, model: &str)
    ensures
        final(metrics).requests_per_model.differs_at(
            old(metrics).requests_per_model,
            seq![model@],
            wrapped_sum(old(metrics).requests_per_model.value(seq![model@]), 1),
        ),
        (Metrics { requests_per_model: old(metrics).requests_per_model, ..*final(metrics) })
            == *old(metrics),
{
    metrics.requests_per_model.inc(labels1(model));
}

/// Counts the end of a request by the status of its response: a status below
/// 400 as a success, any other as a failure of its class.
pub fn track_outcome(metrics: &mut Metrics, status: u16)
    ensures
        if status < 400 {
            *final(metrics) == (Metrics {
                request_success: wrapped_sum(old(metrics).request_success, 1),
                ..*old(metrics)
            })
        } else {
            &&& final(metrics).request_failure.differs_at(
                old(metrics).request_failure,
                seq![failure_class(status)],
                wrapped_sum(old(metrics).request_failure.value(seq![failure_class(status)]), 1),
            )
            &&& (Metrics { request_failure: old(metrics).request_failure, ..*final(metrics) })
                == *old(metrics)
        },
{
    if status < 400 {
        metrics.request_success = wrapping_sum(metrics.request_success, 1);
    } else if status <= 499 {
        metrics.request_failure.inc(labels1("4XX"));
    } else if status <= 599 {
        metrics.request_failure.inc(labels1("5XX"));
    } else {
        metrics.request_failure.inc(labels1("other"));
    }
}

/// The number of tokens that a provider's answer reports in the field `field`
/// of its `usage` object, where it reports one as an unsigned integer.
pub open spec fn reported_tokens(answer: JsonView, field: Seq<char>) -> Option<u64> {
    match answer.get("usage"@) {
        Some(usage) => match usage.get(field) {
            Some(JsonView::Number(n)) => n.unsigned_value(),
            _ => None,
        },
        None => None,
    }
}

/// The count after `tokens` were added, where some were reported.
pub open spec fn with_tokens(count: u64, tokens: Option<u64>) -> u64 {
    match tokens {
        Some(n) => wrapped_sum(count, n),
        None => count,
    }
}

/// The number of tokens in the field `field` of the `usage` object.
fn tokens_in(answer: &Json, field: &str) -> (tokens: Option<u64>)
    ensures
        tokens == reported_tokens(answer@, field@),
{
    match answer.get("usage") {
        Some(usage) => match usage.get(field) {
            Some(value) => match value.as_number() {
                Some(n) => n.as_u64(),
                None => None,
            },
            None => None,
        },
        None => None,
    }
}

/// Adds the token counts that a provider's answer reports under `usage` to
/// the usage of `llm_name`: `prompt_tokens`, `completion_tokens` and
/// `total_tokens` to the categories `prompt`, `completion` and `total`.
pub fn track_token_usage(metrics: &mut Metrics, json: &Json, llm_name: &str)
    ensures
        final(metrics).token_usage.value(seq![llm_name@, "prompt"@]) == with_tokens(
            old(metrics).token_usage.value(seq![llm_name@, "prompt"@]),
            reported_tokens(json@, "prompt_tokens"@),
        ),
        final(metrics).token_usage.value(seq![llm_name@, "completion"@]) == with_tokens(
            old(metrics).token_usage.value(seq![llm_name@, "completion"@]),
            reported_tokens(json@, "completion_tokens"@),
        ),
        final(metrics).token_usage.value(seq![llm_name@, "total"@]) == with_tokens(
            old(metrics).token_usage.value(seq![llm_name@, "total"@]),
            reported_tokens(json@, "total_tokens"@),
        ),
        forall|labels: Seq<Seq<char>>|
            labels != seq![llm_name@, "prompt"@] && labels != seq![llm_name@, "completion"@]
                && labels != seq![llm_name@, "total"@] ==> #[trigger] final(metrics).token_usage.value(labels) == old(metrics).token_usage.value(labels),
        (Metrics { token_usage: old(metrics).token_usage, ..*final(metrics) }) == *old(metrics),
{
    proof {
        reveal_strlit("prompt");
        reveal_strlit("completion");
        reveal_strlit("total");
        assert("prompt"@ != "completion"@) by {
            assert("prompt"@.len() != "completion"@.len());
        }
        assert("prompt"@ != "total"@) by {
            assert("prompt"@.len() != "total"@.len());
        }
        assert("completion"@ != "total"@) by {
            assert("completion"@.len() != "total"@.len());
        }
        assert(seq![llm_name@, "prompt"@][1] == "prompt"@);
        assert(seq![llm_name@, "completion"@][1] == "completion"@);
        assert(seq![llm_name@, "total"@][1] == "total"@);
    }
    match tokens_in(json, "prompt_tokens") {
        Some(n) => {
            metrics.token_usage.inc_by(labels2(llm_name, "prompt"), n);
        },
        None => {},
    }
    match tokens_in(json, "completion_tokens") {
        Some(n) => {
            metrics.token_usage.inc_by(labels2(llm_name, "completion"), n);
        },
        None => {},
    }
    match tokens_in(json, "total_tokens") {
        Some(n) => {
            metrics.token_usage.inc_by(labels2(llm_name, "total"), n);
        },
        None => {},
    }
}

/// Counts one retry for `llm_name`.
pub fn track_retry(metrics: &mut Metrics, llm_name: &str)
    ensures
        final(metrics).retry_count.differs_at(
            old(metrics).retry_count,
            seq![llm_name@],
            wrapped_sum(old(metrics).retry_count.value(seq![llm_name@]), 1),
        ),
        (Metrics { retry_count: old(metrics).retry_count, ..*final(metrics) }) == *old(metrics),
{
    metrics.retry_count.inc(labels1(llm_name));
}

/// The count of the status `status` of an endpoint once `current` was
/// reported for it: each of `closed`, `half-open` and `open` is set back to
/// zero, then `current` is counted once.
pub open spec fn status_count(before: u64, status: Seq<char>, current: Seq<char>) -> u64 {
    let known = status == "closed"@ || status == "half-open"@ || status == "open"@;
    let base = if known {
        0
    } else {
        before
    };
    if status == current {
        wrapped_sum(base, 1)
    } else {
        base
    }
}

/// Reports the status of an endpoint's breaker: the counts of its three
/// statuses are set back to zero, the count of `status` is increased by one,
/// and a status of `open` counts one more opening of the endpoint.
pub fn update_circuit_breaker_status(metrics: &mut Metrics, endpoint: &str, status: &str)
    ensures
        forall|s: Seq<char>|
            final(metrics).circuit_breaker_status.value(#[trigger] label_pair(endpoint@, s))
                == status_count(
                old(metrics).circuit_breaker_status.value(label_pair(endpoint@, s)),
                s,
                status@,
            ),
        forall|labels: Seq<Seq<char>>|
            !(labels.len() == 2 && labels[0] == endpoint@) ==> #[trigger] final(metrics).circuit_breaker_status.value(labels) == old(metrics).circuit_breaker_status.value(
                labels,
            ),
        final(metrics).circuit_breaker_open.differs_at(
            old(metrics).circuit_breaker_open,
            seq![endpoint@],
            if status@ == "open"@ {
                wrapped_sum(old(metrics).circuit_breaker_open.value(seq![endpoint@]), 1)
            } else {
                old(metrics).circuit_breaker_open.value(seq![endpoint@])
            },
        ),
        (Metrics {
            circuit_breaker_status: old(metrics).circuit_breaker_status,
            circuit_breaker_open: old(metrics).circuit_breaker_open,
            ..*final(metrics)
        }) == *old(metrics),
{
    proof {
        reveal_strlit("closed");
        reveal_strlit("half-open");
        reveal_strlit("open");
        assert("closed"@ != "half-open"@) by {
            assert("closed"@.len() != "half-open"@.len());
        }
        assert("closed"@ != "open"@) by {
            assert("closed"@.len() != "open"@.len());
        }
        assert("half-open"@ != "open"@) by {
            assert("half-open"@.len() != "open"@.len());
        }
    }
    let ghost before = metrics.circuit_breaker_status;
    metrics.circuit_breaker_status.reset(labels2(endpoint, "closed"));
    metrics.circuit_breaker_status.reset(labels2(endpoint, "half-open"));
    metrics.circuit_breaker_status.reset(labels2(endpoint, "open"));
    let ghost cleared = metrics.circuit_breaker_status;
    metrics.circuit_breaker_status.inc(labels2(endpoint, status));
    if str_eq(status, "open") {
        metrics.circuit_breaker_open.inc(labels1(endpoint));
    }
    proof {
        let after = metrics.circuit_breaker_status;
        assert forall|s: Seq<char>|
            after.value(#[trigger] label_pair(endpoint@, s)) == status_count(
                before.value(label_pair(endpoint@, s)),
                s,
                status@,
            ) by {
            let l = seq![endpoint@, s];
            assert(l[1] == s);
            assert(seq![endpoint@, "closed"@][1] == "closed"@);
            assert(seq![endpoint@, "half-open"@][1] == "half-open"@);
            assert(seq![endpoint@, "open"@][1] == "open"@);
            assert(seq![endpoint@, status@][1] == status@);
            if s == "closed"@ {
                assert(l =~= seq![endpoint@, "closed"@]);
            }
            if s == "half-open"@ {
                assert(l =~= seq![endpoint@, "half-open"@]);
            }
            if s == "open"@ {
                assert(l =~= seq![endpoint@, "open"@]);
            }
            if s == status@ {
                assert(l =~= seq![endpoint@, status@]);
            }
        }
        assert forall|labels: Seq<Seq<char>>|
            !(labels.len() == 2 && labels[0] == endpoint@) implies #[trigger] after.value(labels)
            == before.value(labels) by {
            assert(seq![endpoint@, "closed"@][0] == endpoint@);
            assert(seq![endpoint@, "half-open"@][0] == endpoint@);
            assert(seq![endpoint@, "open"@][0] == endpoint@);
            assert(seq![endpoint@, status@][0] == endpoint@);
        }
    }
}

/// Sets the gauge of the cache's size.
pub fn update_cache_size(metrics: &mut Metrics, size: usize)
    ensures
        *final(metrics) == (Metrics { cache_size: size as u64, ..*old(metrics) }),
{
    metrics.cache_size = size as u64;
}

/// Counts one selection of the endpoint `api_base` for `llm_name`.
pub fn track_load_balancer_selection(metrics: &mut Metrics, llm_name: &str, api_base: &str)
    ensures
        final(metrics).load_balancer_usage.differs_at(
            old(metrics).load_balancer_usage,
            seq![llm_name@, api_base@],
            wrapped_sum(old(metrics).load_balancer_usage.value(seq![llm_name@, api_base@]), 1),
        ),
        (Metrics { load_balancer_usage: old(metrics).load_balancer_usage, ..*final(metrics) })
            == *old(metrics),
{
    metrics.load_balancer_usage.inc(labels2(llm_name, api_base));
}

} // verus!
