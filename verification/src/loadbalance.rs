//! Load balancing among the endpoints that share a logical name.

use rand::Rng;
use vstd::prelude::*;
use crate::config::Llm;
use crate::error::{GatewayApiError, RoutingErrorType};
use crate::metrics::{track_load_balancer_selection, wrapped_sum, Metrics};
use crate::text::{lowercase, str_eq, to_lowercase};

verus! {

/// How one endpoint is picked among several.
#[derive(Debug, Clone, Copy, PartialEq, Eq, Structural)]
pub enum LoadBalancingStrategy {
    /// Each in turn.
    RoundRobin,
    /// Any, by chance.
    Random,
    /// Always the first.
    First,
}

/// One of `count` places, drawn by chance: `Rng::gen_range` over the places
/// `0..count` with the thread's generator. The place lies below `count`.
/// There has to be a place to draw.
#[verifier::external_body]
fn random_index(count: usize) -> (index: usize)
    requires
        count > 0,
    ensures
        index < count,
{
    rand::thread_rng().gen_range(0..count)
}

/// The counter in the first row of `rows` for `name`; zero where there is
/// none.
pub open spec fn counter_of(rows: Seq<(String, usize)>, name: Seq<char>) -> usize
    decreases rows.len(),
{
    if rows.len() == 0 {
        0
    } else if rows[0].0@ == name {
        rows[0].1
    } else {
        counter_of(rows.drop_first(), name)
    }
}

/// The place of the first row for `name`, or the number of rows where there
/// is none.
pub open spec fn counter_position(rows: Seq<(String, usize)>, name: Seq<char>) -> int
    decreases rows.len(),
{
    if rows.len() == 0 || rows[0].0@ == name {
        0
    } else {
        1 + counter_position(rows.drop_first(), name)
    }
}

/// A place that holds the first row for `name`, or the end where there is
/// none, is `counter_position`, and `counter_of` is the counter there.
proof fn lemma_counter_position_is(rows: Seq<(String, usize)>, name: Seq<char>, at: int)
    requires
        0 <= at <= rows.len(),
        at < rows.len() ==> rows[at].0@ == name,
        forall|k: int| 0 <= k < at ==> rows[k].0@ != name,
    ensures
        counter_position(rows, name) == at,
        counter_of(rows, name) == if at < rows.len() {
            rows[at].1
        } else {
            0
        },
    decreases rows.len(),
{
    if rows.len() == 0 || rows[0].0@ == name {
    } else {
        assert forall|k: int| 0 <= k < at - 1 implies rows.drop_first()[k].0@ != name by {
            assert(rows.drop_first()[k] == rows[k + 1]);
        }
        lemma_counter_position_is(rows.drop_first(), name, at - 1);
    }
}

/// `counter_position` lies within the rows; a row there is for the name and
/// none before it is.
proof fn lemma_counter_position(rows: Seq<(String, usize)>, name: Seq<char>)
    ensures
        0 <= counter_position(rows, name) <= rows.len(),
        counter_position(rows, name) < rows.len() ==> rows[counter_position(rows, name)].0@
            == name,
        forall|k: int| 0 <= k < counter_position(rows, name) ==> rows[k].0@ != name,
    decreases rows.len(),
{
    if rows.len() == 0 || rows[0].0@ == name {
    } else {
        lemma_counter_position(rows.drop_first(), name);
        assert forall|k: int| 0 <= k < counter_position(rows, name) implies rows[k].0@
            != name by {
            if k > 0 {
                assert(rows.drop_first()[k - 1] == rows[k]);
            }
        }
    }
}

/// The place that round-robin picks among `count` when its counter stands at
/// `counter`.
pub open spec fn round_robin_pick(counter: nat, count: nat) -> nat {
    counter % count
}

/// How often round-robin picks the place `place` among `count` in `requests`
/// requests in a row, the first made with the counter at `start`.
pub open spec fn times_picked(start: nat, count: nat, requests: nat, place: nat) -> nat
    decreases requests,
{
    if requests == 0 {
        0
    } else {
        times_picked(start, count, (requests - 1) as nat, place) + if round_robin_pick(
            (start + requests - 1) as nat,
            count,
        ) == place {
            1nat
        } else {
            0nat
        }
    }
}

/// The picks of `a + b` requests are those of the first `a` and those of the
/// `b` that follow.
proof fn lemma_times_picked_split(start: nat, count: nat, a: nat, b: nat, place: nat)
    ensures
        times_picked(start, count, a + b, place) == times_picked(start, count, a, place)
            + times_picked(start + a, count, b, place),
    decreases b,
{
    if b > 0 {
        lemma_times_picked_split(start, count, a, (b - 1) as nat, place);
        assert(a + b - 1 == a + (b - 1));
        assert(start + (a + b) - 1 == (start + a) + b - 1);
    }
}

/// Starting at zero, the first `requests` picks among `count`, with no more
/// requests than places, hit the place `place` once if it lies below
/// `requests`, and never if not.
proof fn lemma_times_picked_from_zero(count: nat, requests: nat, place: nat)
    requires
        requests <= count,
    ensures
        times_picked(0, count, requests, place) == if place < requests {
            1nat
        } else {
            0nat
        },
    decreases requests,
{
    if requests > 0 {
        lemma_times_picked_from_zero(count, (requests - 1) as nat, place);
        vstd::arithmetic::div_mod::lemma_small_mod((requests - 1) as nat, count);
    }
}

/// A window of `count` requests in a row picks each place once, wherever the
/// counter stands at its start.
proof fn lemma_times_picked_window(start: nat, count: nat, place: nat)
    requires
        count > 0,
        place < count,
    ensures
        times_picked(start, count, count, place) == 1,
    decreases start,
{
    if start == 0 {
        lemma_times_picked_from_zero(count, count, place);
    } else {
        let s = (start - 1) as nat;
        lemma_times_picked_window(s, count, place);
        // the window from `s` is the request at `s` and `count - 1` more;
        // the window from `start` is those and the request at `s + count`
        lemma_times_picked_split(s, count, 1, (count - 1) as nat, place);
        lemma_times_picked_split(start, count, (count - 1) as nat, 1, place);
        assert(times_picked(s, count, 1, place) == if round_robin_pick(s, count) == place {
            1nat
        } else {
            0nat
        }) by {
            assert(times_picked(s, count, 0, place) == 0);
        }
        assert(times_picked(start + (count - 1) as nat, count, 1, place) == if round_robin_pick(
            (s + count) as nat,
            count,
        ) == place {
            1nat
        } else {
            0nat
        }) by {
            assert(times_picked(start + (count - 1) as nat, count, 0, place) == 0);
        }
        assert(((s + count) as int) % (count as int) == (s as int) % (count as int)) by {
            vstd::arithmetic::div_mod::lemma_mod_add_multiples_vanish(s as int, count as int);
        }
    }
}

/// Round-robin is fair: over `rounds * count` requests in a row among `count`
/// places it picks each place exactly `rounds` times, wherever its counter
/// stood before the first of them.
pub proof fn lemma_round_robin_is_fair(start: nat, count: nat, rounds: nat, place: nat)
    requires
        count > 0,
        place < count,
    ensures
        times_picked(start, count, rounds * count, place) == rounds,
    decreases rounds,
{
    if rounds == 0 {
        assert(rounds * count == 0);
    } else {
        let before = ((rounds - 1) * count) as nat;
        assert(rounds * count == before + count) by (nonlinear_arith)
            requires
                rounds > 0,
                before == (rounds - 1) * count,
        ;
        lemma_round_robin_is_fair(start, count, (rounds - 1) as nat, place);
        lemma_times_picked_split(start, count, before, count, place);
        lemma_times_picked_window(start + before, count, place);
    }
}

/// The load balancer: a strategy and, for round-robin, one counter for each
/// logical name.
#[derive(Debug)]
pub struct LoadBalancer {
    strategy: LoadBalancingStrategy,
    counters: Vec<(String, usize)>,
}

impl LoadBalancer {
    /// The strategy in use.
    pub closed spec fn strategy(self) -> LoadBalancingStrategy {
        self.strategy
    }

    /// The round-robin counter of the logical name `name`: the number of
    /// round-robin picks made for it so far, wrapped around at `usize::MAX`.
    pub closed spec fn counter(self, name: Seq<char>) -> usize {
        counter_of(self.counters@, name)
    }

    /// The counter after one more pick.
    pub open spec fn next_counter(counter: usize) -> usize {
        if counter == usize::MAX {
            0
        } else {
            (counter + 1) as usize
        }
    }

    /// A load balancer with the strategy `strategy` and all counters at zero.
    pub fn new(strategy: LoadBalancingStrategy) -> (balancer: LoadBalancer)
        ensures
            balancer.strategy() == strategy,
            forall|name: Seq<char>| #[trigger] balancer.counter(name) == 0,
    {
        LoadBalancer { strategy, counters: Vec::new() }
    }

    /// The strategy in use.
    pub fn get_strategy(&self) -> (strategy: LoadBalancingStrategy)
        ensures
            strategy == self.strategy(),
    {
        self.strategy
    }

    /// Picks one of `instances`, the endpoints that share the logical name
    /// `llm_name`. None to pick from is the error `ModelNotFound`. A single
    /// endpoint is picked without consulting the strategy. Among several,
    /// round-robin picks the place of its counter for the name and moves the
    /// counter on, `first` picks the first, and `random` picks any; such a
    /// pick is counted in the usage of the load balancer.
    pub fn select_instance<'a>(
        &mut self,
        llm_name: &str,
        instances: &'a [Llm],
        metrics: &mut Metrics,
    ) -> (picked: Result<&'a Llm, GatewayApiError>)
        ensures
            final(self).strategy() == old(self).strategy(),
            forall|other: Seq<char>|
                other != llm_name@ ==> #[trigger] final(self).counter(other) == old(self).counter(
                    other,
                ),
            final(self).counter(llm_name@) == if instances@.len() >= 2 && old(self).strategy()
                == LoadBalancingStrategy::RoundRobin {
                Self::next_counter(old(self).counter(llm_name@))
            } else {
                old(self).counter(llm_name@)
            },
            match picked {
                Err(e) => instances@.len() == 0 && (e matches GatewayApiError::RoutingError {
                    error_type,
                    ..
                } && error_type == RoutingErrorType::ModelNotFound),
                Ok(llm) => exists|place: int|
                    {
                        &&& 0 <= place < instances@.len()
                        &&& *llm == #[trigger] instances@[place]
                        &&& instances@.len() == 1 ==> place == 0
                        &&& instances@.len() >= 2 ==> match old(self).strategy() {
                            LoadBalancingStrategy::RoundRobin => place == round_robin_pick(
                                old(self).counter(llm_name@) as nat,
                                instances@.len(),
                            ),
                            LoadBalancingStrategy::First => place == 0,
                            LoadBalancingStrategy::Random => true,
                        }
                        &&& if instances@.len() >= 2 {
                            &&& final(metrics).load_balancer_usage.differs_at(
                                old(metrics).load_balancer_usage,
                                seq![llm_name@, instances@[place].api_base@],
                                wrapped_sum(
                                    old(metrics).load_balancer_usage.value(
                                        seq![llm_name@, instances@[place].api_base@],
                                    ),
                                    1,
                                ),
                            )
                            &&& (Metrics {
                                load_balancer_usage: old(metrics).load_balancer_usage,
                                ..*final(metrics)
                            }) == *old(metrics)
                        } else {
                            *final(metrics) == *old(metrics)
                        }
                    },
            },
            picked is Err ==> *final(metrics) == *old(metrics),
    {
        if instances.len() == 0 {
            return Err(
                GatewayApiError::routing_error(
                    "Cannot select instance from empty list",
                    RoutingErrorType::ModelNotFound,
                ),
            );
        }
        if instances.len() == 1 {
            assert(instances@[0] == instances@[0]);
            return Ok(&instances[0]);
        }
        let selected_index = match self.strategy {
            LoadBalancingStrategy::RoundRobin => self.round_robin(llm_name, instances.len()),
            LoadBalancingStrategy::Random => random_index(instances.len()),
            LoadBalancingStrategy::First => 0,
        };
        let selected = &instances[selected_index];
        track_load_balancer_selection(metrics, llm_name, selected.api_base.as_str());
        assert(*selected == instances@[selected_index as int]);
        Ok(selected)
    }

    /// The round-robin pick among `count` places for `key`: the place of the
    /// key's counter, which then moves on by one.
    pub fn round_robin(&mut self, key: &str, count: usize) -> (place: usize)
        requires
            count > 0,
        ensures
            place == round_robin_pick(old(self).counter(key@) as nat, count as nat),
            place < count,
            final(self).strategy() == old(self).strategy(),
            final(self).counter(key@) == Self::next_counter(old(self).counter(key@)),
            forall|other: Seq<char>|
                other != key@ ==> #[trigger] final(self).counter(other) == old(self).counter(other),
    {
        let ghost before = self.counters@;
        let mut at: usize = 0;
        let mut found = false;
        while at < self.counters.len() && !found
            invariant
                at <= self.counters.len(),
                *self == *old(self),
                forall|k: int| 0 <= k < at ==> self.counters@[k].0@ != key@,
                found ==> at < self.counters.len() && self.counters@[at as int].0@ == key@,
            decreases self.counters.len() - at + (if found {
                0int
            } else {
                1int
            }),
        {
            if str_eq(self.counters[at].0.as_str(), key) {
                found = true;
            } else {
                at += 1;
            }
        }
        proof {
            lemma_counter_position_is(before, key@, at as int);
        }
        let current: usize = if found {
            self.counters[at].1
        } else {
            0
        };
        let next: usize = if current == usize::MAX {
            0
        } else {
            current + 1
        };
        if found {
            let name = self.counters[at].0.clone();
            self.counters.set(at, (name, next));
        } else {
            self.counters.push((key.to_owned(), next));
        }
        proof {
            let after = self.counters@;
            assert forall|k: int| 0 <= k < after.len() && k != at implies after[k]
                == before[k] by {}
            lemma_counter_position_is(after, key@, at as int);
            assert forall|other: Seq<char>| other != key@ implies counter_of(after, other)
                == counter_of(before, other) by {
                lemma_counter_position(before, other);
                let p = counter_position(before, other);
                lemma_counter_position_is(before, other, p);
                let q = if p < before.len() {
                    p
                } else {
                    after.len() as int
                };
                assert forall|k: int| 0 <= k < q implies after[k].0@ != other by {
                    if k < before.len() && k != at {
                        assert(after[k] == before[k]);
                    }
                }
                lemma_counter_position_is(after, other, q);
            }
        }
        current % count
    }
}

/// The strategy that a name in lower case stands for: `round_robin`,
/// `random` or `first`; any other name stands for round-robin.
pub open spec fn strategy_named(lowered: Seq<char>) -> LoadBalancingStrategy {
    if lowered == "random"@ {
        LoadBalancingStrategy::Random
    } else if lowered == "first"@ {
        LoadBalancingStrategy::First
    } else {
        LoadBalancingStrategy::RoundRobin
    }
}

/// The strategy that `lowered`, a name in lower case, stands for.
pub fn strategy_from_name(lowered: &str) -> (strategy: LoadBalancingStrategy)
    ensures
        strategy == strategy_named(lowered@),
{
    if str_eq(lowered, "random") {
        LoadBalancingStrategy::Random
    } else if str_eq(lowered, "first") {
        LoadBalancingStrategy::First
    } else {
        LoadBalancingStrategy::RoundRobin
    }
}

/// A load balancer with the strategy that `strategy_name` stands for, in
/// whatever case it is written.
pub fn create_load_balancer(strategy_name: &str) -> (balancer: LoadBalancer)
    ensures
        balancer.strategy() == strategy_named(lowercase(strategy_name@)),
        forall|name: Seq<char>| #[trigger] balancer.counter(name) == 0,
{
    let lowered = to_lowercase(strategy_name);
    LoadBalancer::new(strategy_from_name(lowered.as_str()))
}

} // verus!
