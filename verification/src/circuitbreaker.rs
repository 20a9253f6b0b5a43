//! Circuit breakers: one closed / open / half-open state machine per provider
//! endpoint, and the registry that holds them.
//!
//! Time is a count of milliseconds on a monotonic clock, handed in by the
//! caller. A time that lies before a recorded stamp counts as no time elapsed.

use vstd::prelude::*;
use crate::text::str_eq;

verus! {

/// The state of a circuit.
#[derive(Debug, Clone, Copy, PartialEq, Eq, Structural)]
pub enum CircuitState {
    /// Requests pass.
    Closed,
    /// Requests are denied.
    Open,
    /// One probe is under way; its result decides.
    HalfOpen,
}

/// What a breaker holds.
pub struct BreakerModel {
    pub state: CircuitState,
    pub failure_threshold: nat,
    /// The reset timeout in milliseconds.
    pub reset_timeout: nat,
    /// The failures recorded in a row while closed.
    pub failure_count: nat,
    pub last_failure: Option<nat>,
    pub half_open_entry: Option<nat>,
}

/// The milliseconds from `since` to `now`; zero where `now` lies before.
pub open spec fn elapsed(now: nat, since: nat) -> nat {
    if now >= since {
        (now - since) as nat
    } else {
        0
    }
}

impl BreakerModel {
    /// A closed breaker with no failure recorded.
    pub open spec fn fresh(failure_threshold: nat, reset_timeout_secs: nat) -> BreakerModel {
        BreakerModel {
            state: CircuitState::Closed,
            failure_threshold,
            reset_timeout: reset_timeout_secs * 1000,
            failure_count: 0,
            last_failure: None,
            half_open_entry: None,
        }
    }

    /// Whether an open breaker has waited out its reset timeout at `now`.
    pub open spec fn timed_out(self, now: nat) -> bool {
        self.last_failure matches Some(t) && elapsed(now, t) > self.reset_timeout
    }

    /// Whether a request at `now` is allowed. A closed breaker allows; an open
    /// one allows the probe that finds the reset timeout elapsed; a half-open
    /// one allows nothing until the probe's result is recorded.
    pub open spec fn allows(self, now: nat) -> bool {
        match self.state {
            CircuitState::Closed => true,
            CircuitState::Open => self.timed_out(now),
            CircuitState::HalfOpen => false,
        }
    }

    /// The breaker after it was asked at `now`: an open breaker that admits
    /// the probe becomes half-open and stamps the entry.
    pub open spec fn after_ask(self, now: nat) -> BreakerModel {
        if self.state == CircuitState::Open && self.timed_out(now) {
            BreakerModel { state: CircuitState::HalfOpen, half_open_entry: Some(now), ..self }
        } else {
            self
        }
    }

    /// The breaker after a success: closed with a count of zero, unless it is
    /// open, where a success changes nothing.
    pub open spec fn after_success(self) -> BreakerModel {
        match self.state {
            CircuitState::Open => self,
            _ => BreakerModel { state: CircuitState::Closed, failure_count: 0, ..self },
        }
    }

    /// The breaker after a failure at `now`: the failure is stamped; a closed
    /// breaker counts it and opens when the count reaches the threshold; a
    /// half-open one opens again.
    pub open spec fn after_failure(self, now: nat) -> BreakerModel {
        match self.state {
            CircuitState::Closed => {
                let count = self.failure_count + 1;
                BreakerModel {
                    state: if count >= self.failure_threshold {
                        CircuitState::Open
                    } else {
                        CircuitState::Closed
                    },
                    failure_count: count,
                    last_failure: Some(now),
                    ..self
                }
            },
            CircuitState::HalfOpen => BreakerModel {
                state: CircuitState::Open,
                last_failure: Some(now),
                ..self
            },
            CircuitState::Open => BreakerModel { last_failure: Some(now), ..self },
        }
    }

    /// The breaker after failures at each of `times`, in order.
    pub open spec fn after_failures(self, times: Seq<nat>) -> BreakerModel
        decreases times.len(),
    {
        if times.len() == 0 {
            self
        } else {
            self.after_failures(times.drop_last()).after_failure(times.last())
        }
    }
}

/// After one or more failures in a row a breaker is open, or it is closed and
/// has counted every one of them without reaching its threshold. The last
/// failure is stamped.
pub proof fn lemma_failures_in_a_row(b: BreakerModel, times: Seq<nat>)
    requires
        times.len() > 0,
    ensures
        ({
            let after = b.after_failures(times);
            &&& after.failure_threshold == b.failure_threshold
            &&& after.reset_timeout == b.reset_timeout
            &&& after.last_failure == Some(times.last())
            &&& after.state != CircuitState::HalfOpen
            &&& after.state == CircuitState::Closed ==> b.state == CircuitState::Closed
                && after.failure_count == b.failure_count + times.len() && after.failure_count
                < b.failure_threshold
        }),
    decreases times.len(),
{
    if times.len() == 1 {
        assert(times.drop_last().len() == 0);
    } else {
        lemma_failures_in_a_row(b, times.drop_last());
    }
}

/// Once a breaker has recorded as many failures in a row as its threshold,
/// it is open, and it denies every request that comes before the reset
/// timeout has elapsed since the last of them.
pub proof fn lemma_denies_after_threshold(b: BreakerModel, times: Seq<nat>, now: nat)
    requires
        b.failure_threshold > 0,
        times.len() >= b.failure_threshold,
        elapsed(now, times.last()) <= b.reset_timeout,
    ensures
        b.after_failures(times).state == CircuitState::Open,
        !b.after_failures(times).allows(now),
        b.after_failures(times).after_ask(now) == b.after_failures(times),
{
    lemma_failures_in_a_row(b, times);
}

/// An open breaker whose reset timeout has elapsed since its last failure
/// allows the next request and becomes half-open; it then denies every other
/// request until a result is recorded; and a success closes it.
pub proof fn lemma_probe_then_close(b: BreakerModel, now: nat, later: nat)
    requires
        b.state == CircuitState::Open,
        b.last_failure is Some,
        elapsed(now, b.last_failure->Some_0) > b.reset_timeout,
    ensures
        b.allows(now),
        b.after_ask(now).state == CircuitState::HalfOpen,
        b.after_ask(now).half_open_entry == Some(now),
        !b.after_ask(now).allows(later),
        b.after_ask(now).after_success().state == CircuitState::Closed,
        b.after_ask(now).after_success().failure_count == 0,
        b.after_ask(now).after_failure(later).state == CircuitState::Open,
{
}

/// The breaker of one endpoint.
#[derive(Debug)]
pub struct CircuitBreaker {
    state: CircuitState,
    failure_threshold: usize,
    reset_timeout_secs: u64,
    failure_count: usize,
    last_failure_time: Option<u64>,
    half_open_time: Option<u64>,
}

impl View for CircuitBreaker {
    type V = BreakerModel;

    closed spec fn view(&self) -> BreakerModel {
        BreakerModel {
            state: self.state,
            failure_threshold: self.failure_threshold as nat,
            reset_timeout: (self.reset_timeout_secs * 1000) as nat,
            failure_count: self.failure_count as nat,
            last_failure: match self.last_failure_time {
                Some(t) => Some(t as nat),
                None => None,
            },
            half_open_entry: match self.half_open_time {
                Some(t) => Some(t as nat),
                None => None,
            },
        }
    }
}

impl CircuitBreaker {
    /// While the circuit is closed the count stays below the threshold, or at
    /// zero.
    #[verifier::type_invariant]
    spec fn counted(self) -> bool {
        self.state == CircuitState::Closed ==> self.failure_count < self.failure_threshold
            || self.failure_count == 0
    }

    /// A closed breaker that opens after `failure_threshold` failures in a row
    /// and probes again `reset_timeout_secs` seconds after the last failure.
    pub fn new(failure_threshold: usize, reset_timeout_secs: u64) -> (breaker: CircuitBreaker)
        ensures
            breaker@ == BreakerModel::fresh(failure_threshold as nat, reset_timeout_secs as nat),
    {
        CircuitBreaker {
            state: CircuitState::Closed,
            failure_threshold,
            reset_timeout_secs,
            failure_count: 0,
            last_failure_time: None,
            half_open_time: None,
        }
    }

    /// Asks whether a request at `now` may go out. The open breaker that
    /// admits the probe becomes half-open.
    pub fn is_request_allowed(&mut self, now: u64) -> (allowed: bool)
        ensures
            allowed == old(self)@.allows(now as nat),
            final(self)@ == old(self)@.after_ask(now as nat),
    {
        match self.state {
            CircuitState::Closed => true,
            CircuitState::Open => {
                match self.last_failure_time {
                    Some(last) => {
                        let waited: u64 = if now >= last {
                            now - last
                        } else {
                            0
                        };
                        if (waited as u128) > (self.reset_timeout_secs as u128) * 1000 {
                            self.state = CircuitState::HalfOpen;
                            self.half_open_time = Some(now);
                            true
                        } else {
                            false
                        }
                    },
                    None => false,
                }
            },
            CircuitState::HalfOpen => false,
        }
    }

    /// Records that a request succeeded.
    pub fn record_success(&mut self)
        ensures
            final(self)@ == old(self)@.after_success(),
    {
        match self.state {
            CircuitState::Open => {},
            _ => {
                self.failure_count = 0;
                self.state = CircuitState::Closed;
            },
        }
    }

    /// Records that a request failed at `now`.
    pub fn record_failure(&mut self, now: u64)
        ensures
            final(self)@ == old(self)@.after_failure(now as nat),
    {
        proof {
            use_type_invariant(&*self);
        }
        match self.state {
            CircuitState::Closed => {
                let count = self.failure_count + 1;
                if count >= self.failure_threshold {
                    self.state = CircuitState::Open;
                }
                self.failure_count = count;
                self.last_failure_time = Some(now);
            },
            CircuitState::HalfOpen => {
                self.state = CircuitState::Open;
                self.last_failure_time = Some(now);
            },
            CircuitState::Open => {
                self.last_failure_time = Some(now);
            },
        }
    }

    /// The current state.
    pub fn get_state(&self) -> (state: CircuitState)
        ensures
            state == self@.state,
    {
        self.state
    }
}

/// The breaker of the first entry of `entries` for `endpoint`.
pub open spec fn breaker_of(entries: Seq<(String, CircuitBreaker)>, endpoint: Seq<char>) -> Option<
    BreakerModel,
>
    decreases entries.len(),
{
    if entries.len() == 0 {
        None
    } else if entries[0].0@ == endpoint {
        Some(entries[0].1@)
    } else {
        breaker_of(entries.drop_first(), endpoint)
    }
}

/// The place of the first entry for `endpoint`, or the number of entries
/// where there is none.
pub open spec fn entry_position(entries: Seq<(String, CircuitBreaker)>, endpoint: Seq<char>) -> int
    decreases entries.len(),
{
    if entries.len() == 0 || entries[0].0@ == endpoint {
        0
    } else {
        1 + entry_position(entries.drop_first(), endpoint)
    }
}

/// A place that holds the first entry for `endpoint`, or the end where there
/// is none, is `entry_position`, and `breaker_of` finds the breaker there.
proof fn lemma_entry_position_is(
    entries: Seq<(String, CircuitBreaker)>,
    endpoint: Seq<char>,
    at: int,
)
    requires
        0 <= at <= entries.len(),
        at < entries.len() ==> entries[at].0@ == endpoint,
        forall|k: int| 0 <= k < at ==> entries[k].0@ != endpoint,
    ensures
        entry_position(entries, endpoint) == at,
        breaker_of(entries, endpoint) == if at < entries.len() {
            Some(entries[at].1@)
        } else {
            None
        },
    decreases entries.len(),
{
    if entries.len() == 0 || entries[0].0@ == endpoint {
    } else {
        assert forall|k: int| 0 <= k < at - 1 implies entries.drop_first()[k].0@ != endpoint by {
            assert(entries.drop_first()[k] == entries[k + 1]);
        }
        lemma_entry_position_is(entries.drop_first(), endpoint, at - 1);
    }
}

/// `entry_position` lies within the entries; an entry there is for the
/// endpoint and none before it is.
proof fn lemma_entry_position(entries: Seq<(String, CircuitBreaker)>, endpoint: Seq<char>)
    ensures
        0 <= entry_position(entries, endpoint) <= entries.len(),
        entry_position(entries, endpoint) < entries.len() ==> entries[entry_position(
            entries,
            endpoint,
        )].0@ == endpoint,
        forall|k: int| 0 <= k < entry_position(entries, endpoint) ==> entries[k].0@ != endpoint,
        breaker_of(entries, endpoint) == if entry_position(entries, endpoint) < entries.len() {
            Some(entries[entry_position(entries, endpoint)].1@)
        } else {
            None
        },
    decreases entries.len(),
{
    if entries.len() == 0 || entries[0].0@ == endpoint {
    } else {
        lemma_entry_position(entries.drop_first(), endpoint);
        assert forall|k: int| 0 <= k < entry_position(entries, endpoint) implies entries[k].0@
            != endpoint by {
            if k > 0 {
                assert(entries.drop_first()[k - 1] == entries[k]);
            }
        }
    }
}

/// The breakers of all endpoints seen so far. A breaker is made when its
/// endpoint is first mentioned and stays for good.
#[derive(Debug)]
pub struct CircuitBreakerRegistry {
    circuit_breakers: Vec<(String, CircuitBreaker)>,
    failure_threshold: usize,
    reset_timeout_secs: u64,
}

/// No two entries are for the same endpoint.
pub open spec fn distinct_endpoints(entries: Seq<(String, CircuitBreaker)>) -> bool {
    forall|i: int, j: int|
        0 <= i < j < entries.len() ==> (#[trigger] entries[i]).0@ != (#[trigger] entries[j]).0@
}

/// Among entries for distinct endpoints, the breaker of the endpoint of the
/// entry at `at` is the breaker of that entry.
pub proof fn lemma_breaker_of_entry(entries: Seq<(String, CircuitBreaker)>, at: int)
    requires
        distinct_endpoints(entries),
        0 <= at < entries.len(),
    ensures
        breaker_of(entries, entries[at].0@) == Some(entries[at].1@),
        entry_position(entries, entries[at].0@) == at,
{
    lemma_entry_position_is(entries, entries[at].0@, at);
}

impl CircuitBreakerRegistry {
    /// Every endpoint has one entry.
    #[verifier::type_invariant]
    spec fn one_entry_each(self) -> bool {
        distinct_endpoints(self.circuit_breakers@)
    }

    /// The entries, in the order their endpoints were first mentioned.
    pub closed spec fn entries(self) -> Seq<(String, CircuitBreaker)> {
        self.circuit_breakers@
    }

    /// The endpoints mentioned so far, in the order of first mention.
    pub open spec fn endpoints(self) -> Seq<Seq<char>> {
        self.entries().map_values(|entry: (String, CircuitBreaker)| entry.0@)
    }

    /// The endpoints once `endpoint` was mentioned to the registry `before`:
    /// those of `before`, and `endpoint` behind them where it is new.
    pub open spec fn mentioned(before: CircuitBreakerRegistry, endpoint: Seq<char>) -> Seq<
        Seq<char>,
    > {
        if before.breaker(endpoint) is None {
            before.endpoints().push(endpoint)
        } else {
            before.endpoints()
        }
    }

    /// The breaker of `endpoint`, where it was mentioned before.
    pub open spec fn breaker(self, endpoint: Seq<char>) -> Option<BreakerModel> {
        breaker_of(self.entries(), endpoint)
    }

    /// The state of the breaker of `endpoint`, where it was mentioned before.
    pub open spec fn state_of(self, endpoint: Seq<char>) -> Option<CircuitState> {
        match self.breaker(endpoint) {
            Some(b) => Some(b.state),
            None => None,
        }
    }

    /// The breaker that a first mention makes.
    pub closed spec fn fresh(self) -> BreakerModel {
        BreakerModel::fresh(self.failure_threshold as nat, self.reset_timeout_secs as nat)
    }

    /// The breaker of `endpoint`, or a fresh one where it was not mentioned
    /// before.
    pub open spec fn breaker_or_fresh(self, endpoint: Seq<char>) -> BreakerModel {
        match self.breaker(endpoint) {
            Some(b) => b,
            None => self.fresh(),
        }
    }

    /// The registry holds the same breakers as `before`, but for `endpoint`,
    /// whose breaker is `breaker`; and it makes the same fresh breakers.
    pub open spec fn differs_at(
        self,
        before: CircuitBreakerRegistry,
        endpoint: Seq<char>,
        breaker: BreakerModel,
    ) -> bool {
        &&& self.fresh() == before.fresh()
        &&& self.breaker(endpoint) == Some(breaker)
        &&& forall|other: Seq<char>|
            other != endpoint ==> #[trigger] self.breaker(other) == before.breaker(other)
    }

    /// An empty registry whose breakers open after `failure_threshold`
    /// failures in a row and probe again after `reset_timeout_secs` seconds.
    pub fn new(failure_threshold: usize, reset_timeout_secs: u64) -> (registry:
        CircuitBreakerRegistry)
        ensures
            registry.entries().len() == 0,
            registry.endpoints().len() == 0,
            forall|endpoint: Seq<char>| #[trigger] registry.breaker(endpoint) is None,
            registry.fresh() == BreakerModel::fresh(
                failure_threshold as nat,
                reset_timeout_secs as nat,
            ),
    {
        CircuitBreakerRegistry {
            circuit_breakers: Vec::new(),
            failure_threshold,
            reset_timeout_secs,
        }
    }

    /// The place of the breaker of `endpoint`, which is made where the
    /// endpoint was not mentioned before.
    pub fn get_circuit_breaker(&mut self, endpoint: &str) -> (index: usize)
        ensures
            final(self).differs_at(*old(self), endpoint@, old(self).breaker_or_fresh(endpoint@)),
            index == entry_position(final(self).entries(), endpoint@),
            index < final(self).entries().len(),
            final(self).entries()[index as int].1@ == old(self).breaker_or_fresh(endpoint@),
            final(self).entries().len() == old(self).entries().len() + (if old(self).breaker(
                endpoint@,
            ) is None {
                1int
            } else {
                0int
            }),
            final(self).endpoints() == Self::mentioned(*old(self), endpoint@),
    {
        proof {
            use_type_invariant(&*self);
        }
        let mut i: usize = 0;
        while i < self.circuit_breakers.len()
            invariant
                i <= self.circuit_breakers.len(),
                *self == *old(self),
                distinct_endpoints(self.circuit_breakers@),
                forall|k: int| 0 <= k < i ==> self.circuit_breakers@[k].0@ != endpoint@,
            decreases self.circuit_breakers.len() - i,
        {
            if str_eq(self.circuit_breakers[i].0.as_str(), endpoint) {
                proof {
                    lemma_entry_position_is(self.circuit_breakers@, endpoint@, i as int);
                }
                return i;
            }
            i += 1;
        }
        proof {
            lemma_entry_position_is(self.circuit_breakers@, endpoint@, i as int);
        }
        let ghost before = self.circuit_breakers@;
        let breaker = CircuitBreaker::new(self.failure_threshold, self.reset_timeout_secs);
        let mut entries: Vec<(String, CircuitBreaker)> = Vec::new();
        core::mem::swap(&mut entries, &mut self.circuit_breakers);
        entries.push((endpoint.to_owned(), breaker));
        proof {
            assert forall|a: int, b: int| 0 <= a < b < entries@.len() implies (
            #[trigger] entries@[a]).0@ != (#[trigger] entries@[b]).0@ by {
                assert(entries@[a] == before[a]);
                if b < before.len() {
                    assert(entries@[b] == before[b]);
                }
            }
        }
        self.circuit_breakers = entries;
        proof {
            let after = self.circuit_breakers@;
            assert(after.map_values(|entry: (String, CircuitBreaker)| entry.0@)
                =~= before.map_values(|entry: (String, CircuitBreaker)| entry.0@).push(endpoint@));
            lemma_entry_position_is(after, endpoint@, i as int);
            assert forall|other: Seq<char>| other != endpoint@ implies breaker_of(after, other)
                == breaker_of(before, other) by {
                lemma_entry_position(before, other);
                let p = entry_position(before, other);
                let q = if p < before.len() {
                    p
                } else {
                    after.len() as int
                };
                assert forall|k: int| 0 <= k < q implies after[k].0@ != other by {
                    if k < before.len() {
                        assert(after[k] == before[k]);
                    }
                }
                lemma_entry_position_is(after, other, q);
            }
        }
        i
    }

    /// Puts `breaker` at `index`.
    fn put(&mut self, index: usize, endpoint: &str, breaker: CircuitBreaker)
        requires
            index < old(self).entries().len(),
            index == entry_position(old(self).entries(), endpoint@),
        ensures
            final(self).differs_at(*old(self), endpoint@, breaker@),
            final(self).entries().len() == old(self).entries().len(),
            final(self).endpoints() == old(self).endpoints(),
    {
        let ghost before = self.circuit_breakers@;
        proof {
            use_type_invariant(&*self);
            lemma_entry_position(before, endpoint@);
        }
        let name = self.circuit_breakers[index].0.clone();
        let mut entries: Vec<(String, CircuitBreaker)> = Vec::new();
        core::mem::swap(&mut entries, &mut self.circuit_breakers);
        entries.set(index, (name, breaker));
        proof {
            assert forall|a: int, b: int| 0 <= a < b < entries@.len() implies (
            #[trigger] entries@[a]).0@ != (#[trigger] entries@[b]).0@ by {
                assert(entries@[a].0@ == before[a].0@);
                assert(entries@[b].0@ == before[b].0@);
            }
        }
        self.circuit_breakers = entries;
        proof {
            let after = self.circuit_breakers@;
            assert(after.len() == before.len());
            assert forall|k: int| 0 <= k < after.len() implies (#[trigger] after[k]).0@
                == before[k].0@ && (k != index ==> after[k] == before[k]) by {}
            assert(after.map_values(|entry: (String, CircuitBreaker)| entry.0@)
                =~= before.map_values(|entry: (String, CircuitBreaker)| entry.0@));
            lemma_entry_position_is(after, endpoint@, index as int);
            assert forall|other: Seq<char>| other != endpoint@ implies breaker_of(after, other)
                == breaker_of(before, other) by {
                lemma_entry_position(before, other);
                let p = entry_position(before, other);
                if p < before.len() {
                    assert(after[p].0@ == before[p].0@);
                }
                assert forall|k: int| 0 <= k < p implies after[k].0@ != other by {
                    assert(after[k].0@ == before[k].0@);
                }
                lemma_entry_position_is(after, other, p);
            }
        }
    }

    /// A copy of the breaker at `index`.
    fn take_copy(&self, index: usize) -> (breaker: CircuitBreaker)
        requires
            index < self.entries().len(),
        ensures
            breaker@ == self.entries()[index as int].1@,
    {
        let b = &self.circuit_breakers[index].1;
        proof {
            use_type_invariant(b);
        }
        CircuitBreaker {
            state: b.state,
            failure_threshold: b.failure_threshold,
            reset_timeout_secs: b.reset_timeout_secs,
            failure_count: b.failure_count,
            last_failure_time: b.last_failure_time,
            half_open_time: b.half_open_time,
        }
    }

    /// Asks the breaker of `endpoint` whether a request at `now` may go out.
    pub fn is_request_allowed(&mut self, endpoint: &str, now: u64) -> (allowed: bool)
        ensures
            allowed == old(self).breaker_or_fresh(endpoint@).allows(now as nat),
            final(self).differs_at(
                *old(self),
                endpoint@,
                old(self).breaker_or_fresh(endpoint@).after_ask(now as nat),
            ),
            final(self).endpoints() == Self::mentioned(*old(self), endpoint@),
            final(self).entries().len() == old(self).entries().len() + (if old(self).breaker(
                endpoint@,
            ) is None {
                1int
            } else {
                0int
            }),
    {
        let index = self.get_circuit_breaker(endpoint);
        let ghost mid = *self;
        let mut breaker = self.take_copy(index);
        let allowed = breaker.is_request_allowed(now);
        self.put(index, endpoint, breaker);
        proof {
            assert forall|other: Seq<char>| other != endpoint@ implies #[trigger] self.breaker(
                other,
            ) == old(self).breaker(other) by {
                assert(mid.breaker(other) == old(self).breaker(other));
            }
        }
        allowed
    }

    /// Records a success for `endpoint`.
    pub fn record_success(&mut self, endpoint: &str)
        ensures
            final(self).differs_at(
                *old(self),
                endpoint@,
                old(self).breaker_or_fresh(endpoint@).after_success(),
            ),
            final(self).endpoints() == Self::mentioned(*old(self), endpoint@),
            final(self).entries().len() == old(self).entries().len() + (if old(self).breaker(
                endpoint@,
            ) is None {
                1int
            } else {
                0int
            }),
    {
        let index = self.get_circuit_breaker(endpoint);
        let ghost mid = *self;
        let mut breaker = self.take_copy(index);
        breaker.record_success();
        self.put(index, endpoint, breaker);
        proof {
            assert forall|other: Seq<char>| other != endpoint@ implies #[trigger] self.breaker(
                other,
            ) == old(self).breaker(other) by {
                assert(mid.breaker(other) == old(self).breaker(other));
            }
        }
    }

    /// Records a failure at `now` for `endpoint`.
    pub fn record_failure(&mut self, endpoint: &str, now: u64)
        ensures
            final(self).differs_at(
                *old(self),
                endpoint@,
                old(self).breaker_or_fresh(endpoint@).after_failure(now as nat),
            ),
            final(self).endpoints() == Self::mentioned(*old(self), endpoint@),
            final(self).entries().len() == old(self).entries().len() + (if old(self).breaker(
                endpoint@,
            ) is None {
                1int
            } else {
                0int
            }),
    {
        let index = self.get_circuit_breaker(endpoint);
        let ghost mid = *self;
        let mut breaker = self.take_copy(index);
        breaker.record_failure(now);
        self.put(index, endpoint, breaker);
        proof {
            assert forall|other: Seq<char>| other != endpoint@ implies #[trigger] self.breaker(
                other,
            ) == old(self).breaker(other) by {
                assert(mid.breaker(other) == old(self).breaker(other));
            }
        }
    }

    /// Every endpoint mentioned so far with the state of its breaker, in the
    /// order of first mention.
    pub fn get_all_breakers(&self) -> (states: Vec<(String, CircuitState)>)
        ensures
            states@.len() == self.entries().len(),
            forall|i: int|
                0 <= i < states@.len() ==> (#[trigger] states@[i]).0@ == self.entries()[i].0@
                    && states@[i].1 == self.entries()[i].1@.state,
            states@.map_values(|state: (String, CircuitState)| state.0@) == self.endpoints(),
            forall|i: int|
                0 <= i < states@.len() ==> self.state_of((#[trigger] states@[i]).0@) == Some(
                    states@[i].1,
                ),
    {
        proof {
            use_type_invariant(self);
        }
        let mut out: Vec<(String, CircuitState)> = Vec::new();
        let mut i: usize = 0;
        while i < self.circuit_breakers.len()
            invariant
                i <= self.circuit_breakers.len(),
                out@.len() == i,
                forall|k: int|
                    0 <= k < i ==> (#[trigger] out@[k]).0@ == self.circuit_breakers@[k].0@
                        && out@[k].1 == self.circuit_breakers@[k].1@.state,
            decreases self.circuit_breakers.len() - i,
        {
            let name = self.circuit_breakers[i].0.clone();
            let state = self.circuit_breakers[i].1.get_state();
            out.push((name, state));
            i += 1;
        }
        proof {
            assert(out@.map_values(|state: (String, CircuitState)| state.0@)
                =~= self.circuit_breakers@.map_values(
                |entry: (String, CircuitBreaker)| entry.0@,
            ));
            assert forall|k: int| 0 <= k < out@.len() implies self.state_of(
                (#[trigger] out@[k]).0@,
            ) == Some(out@[k].1) by {
                lemma_breaker_of_entry(self.circuit_breakers@, k);
            }
        }
        out
    }
}

} // verus!
