use vstd::prelude::*;

use crate::ipv4::{decimal_value, is_ipv4_literal, is_ipv4_split, parse_ipv4};
use crate::provider::DnsProvider;

verus! {

/// Ceiling on one lookup's wall-clock time: a lookup that has not completed
/// strictly before this many nanoseconds counts as failed.
pub const OUTER_TIMEOUT_NANOS: u64 = 5_000_000_000;

/// Per-query timeout handed to the resolver library, in seconds.
pub const RESOLVER_TIMEOUT_SECS: u64 = 3;

/// Retry budget handed to the resolver library.
pub const RESOLVER_ATTEMPTS: u32 = 2;

/// Standard DNS port; the only port a probe ever targets.
pub const DNS_PORT: u16 = 53;

/// What the runtime observed for one domain lookup against one provider:
/// whether the lookup came back with an answer at all, and how long it took.
#[derive(Clone, Copy)]
pub struct LookupObservation {
    pub completed: bool,
    pub elapsed_nanos: u64,
}

/// A single probe's verdict after applying the outer timeout policy.
pub enum ProbeOutcome {
    Success { elapsed_nanos: u64 },
    Failure,
}

/// Whether one lookup counts as a success: it completed, strictly before the
/// deadline. A lookup that finishes exactly at the deadline is a failure.
pub open spec fn lookup_succeeded(o: LookupObservation, limit_nanos: u64) -> bool {
    o.completed && o.elapsed_nanos < limit_nanos
}

/// Applies the outer timeout policy to one observation.
pub fn classify_lookup(o: LookupObservation, limit_nanos: u64) -> (r: ProbeOutcome)
    ensures
        r == if lookup_succeeded(o, limit_nanos) {
            ProbeOutcome::Success { elapsed_nanos: o.elapsed_nanos }
        } else {
            ProbeOutcome::Failure
        },
{
    if o.completed && o.elapsed_nanos < limit_nanos {
        ProbeOutcome::Success { elapsed_nanos: o.elapsed_nanos }
    } else {
        ProbeOutcome::Failure
    }
}

/// How many of the observations are successful lookups under the policy.
pub open spec fn success_count(obs: Seq<LookupObservation>, limit_nanos: u64) -> nat
    decreases obs.len(),
{
    if obs.len() == 0 {
        0
    } else {
        success_count(obs.drop_last(), limit_nanos) + if lookup_succeeded(
            obs.last(),
            limit_nanos,
        ) {
            1nat
        } else {
            0nat
        }
    }
}

/// Total elapsed time of exactly the successful lookups.
pub open spec fn success_total(obs: Seq<LookupObservation>, limit_nanos: u64) -> nat
    decreases obs.len(),
{
    if obs.len() == 0 {
        0
    } else {
        success_total(obs.drop_last(), limit_nanos) + if lookup_succeeded(
            obs.last(),
            limit_nanos,
        ) {
            obs.last().elapsed_nanos as nat
        } else {
            0nat
        }
    }
}

/// Running tally for one provider's probe set: how many lookups succeeded and
/// how much wall-clock time those successes took together.
pub struct ProbeStats {
    pub successful_queries: u64,
    pub total_nanos: u64,
}

impl ProbeStats {
    /// An empty tally.
    pub fn new() -> (s: ProbeStats)
        ensures
            s.successful_queries == 0,
            s.total_nanos == 0,
    {
        ProbeStats { successful_queries: 0, total_nanos: 0 }
    }

    /// Folds one verdict into the tally: a success adds its elapsed time and
    /// counts once; a failure changes nothing.
    pub fn record(&mut self, outcome: ProbeOutcome)
        requires
            (outcome matches ProbeOutcome::Success { elapsed_nanos } ==> {
                &&& old(self).total_nanos + elapsed_nanos <= u64::MAX
                &&& old(self).successful_queries < u64::MAX
            }),
        ensures
            (match outcome {
                ProbeOutcome::Success { elapsed_nanos } => {
                    &&& final(self).successful_queries == old(self).successful_queries + 1
                    &&& final(self).total_nanos == old(self).total_nanos + elapsed_nanos
                },
                ProbeOutcome::Failure => *final(self) == *old(self),
            }),
    {
        match outcome {
            ProbeOutcome::Success { elapsed_nanos } => {
                self.successful_queries = self.successful_queries + 1;
                self.total_nanos = self.total_nanos + elapsed_nanos;
            },
            ProbeOutcome::Failure => {},
        }
    }
}

/// The average the provider is ranked by, if any probe succeeded: the total
/// elapsed time of the successful lookups divided by their number.
pub open spec fn average_of(obs: Seq<LookupObservation>, limit_nanos: u64) -> Option<u64> {
    if success_count(obs, limit_nanos) > 0 {
        Some((success_total(obs, limit_nanos) / success_count(obs, limit_nanos)) as u64)
    } else {
        None
    }
}

/// One provider's benchmark verdict from the observations of its probe set:
/// sets `avg_response_time` to the average over exactly the successful
/// lookups, and leaves the record untouched when every lookup failed. Probe
/// failures are absorbed here; nothing is reported to the caller.
pub fn benchmark_provider(provider: &mut DnsProvider, observations: &Vec<LookupObservation>)
    requires
        observations@.len() * OUTER_TIMEOUT_NANOS <= u64::MAX,
    ensures
        (if success_count(observations@, OUTER_TIMEOUT_NANOS) > 0 {
            final(provider).avg_response_time == average_of(observations@, OUTER_TIMEOUT_NANOS)
        } else {
            final(provider).avg_response_time == old(provider).avg_response_time
        }),
        final(provider).name == old(provider).name,
        final(provider).organization == old(provider).organization,
        final(provider).location == old(provider).location,
        final(provider).ipv4 == old(provider).ipv4,
        final(provider).ipv6 == old(provider).ipv6,
{
    let mut stats = ProbeStats::new();
    let mut i: usize = 0;
    while i < observations.len()
        invariant
            0 <= i <= observations@.len(),
            observations@.len() * OUTER_TIMEOUT_NANOS <= u64::MAX,
            stats.successful_queries == success_count(observations@.take(i as int), OUTER_TIMEOUT_NANOS),
            stats.total_nanos == success_total(observations@.take(i as int), OUTER_TIMEOUT_NANOS),
            stats.successful_queries <= i,
            stats.total_nanos <= i * OUTER_TIMEOUT_NANOS,
        decreases observations@.len() - i,
    {
        let o = observations[i];
        let outcome = classify_lookup(o, OUTER_TIMEOUT_NANOS);
        proof {
            assert(observations@.take(i + 1).drop_last() =~= observations@.take(i as int));
            assert(observations@.take(i + 1).last() == observations@[i as int]);
            assert((i + 1) * OUTER_TIMEOUT_NANOS == i * OUTER_TIMEOUT_NANOS + OUTER_TIMEOUT_NANOS)
                by (nonlinear_arith);
        }
        stats.record(outcome);
        i = i + 1;
    }
    proof {
        assert(observations@.take(observations@.len() as int) =~= observations@);
    }
    if stats.successful_queries > 0 {
        provider.avg_response_time = Some(stats.total_nanos / stats.successful_queries);
    }
}

/// Everything the runtime needs to aim a resolver at one provider and
/// nothing else: the provider's IPv4 address as four octet values, the
/// standard DNS port, and the fixed timeout and retry policy. No fallback
/// nameserver is ever part of a plan, so the measurement is isolated to the
/// provider under test.
pub struct ResolverPlan {
    pub octets: (u8, u8, u8, u8),
    pub port: u16,
    pub timeout_secs: u64,
    pub attempts: u32,
    pub outer_timeout_nanos: u64,
}

/// Decides whether a provider can be probed at all, and with what policy: a
/// plan exists exactly when the provider's `ipv4` field is a valid IPv4
/// literal, and its octets are that literal's values. A provider with a
/// malformed address gets no plan and is simply never probed.
pub fn resolver_plan(provider: &DnsProvider) -> (r: Option<ResolverPlan>)
    ensures
        r is Some <==> is_ipv4_literal(provider.ipv4@),
        (r matches Some(plan) ==> {
            &&& plan.port == DNS_PORT
            &&& plan.timeout_secs == RESOLVER_TIMEOUT_SECS
            &&& plan.attempts == RESOLVER_ATTEMPTS
            &&& plan.outer_timeout_nanos == OUTER_TIMEOUT_NANOS
            &&& forall|i: int, j: int, k: int|
                #[trigger] is_ipv4_split(provider.ipv4@, i, j, k) ==> {
                    &&& plan.octets.0 == decimal_value(provider.ipv4@.subrange(0, i))
                    &&& plan.octets.1 == decimal_value(provider.ipv4@.subrange(i + 1, j))
                    &&& plan.octets.2 == decimal_value(provider.ipv4@.subrange(j + 1, k))
                    &&& plan.octets.3 == decimal_value(
                        provider.ipv4@.subrange(k + 1, provider.ipv4@.len() as int),
                    )
                }
        }),
{
    match parse_ipv4(provider.ipv4.as_str()) {
        Some(octets) => Some(
            ResolverPlan {
                octets,
                port: DNS_PORT,
                timeout_secs: RESOLVER_TIMEOUT_SECS,
                attempts: RESOLVER_ATTEMPTS,
                outer_timeout_nanos: OUTER_TIMEOUT_NANOS,
            },
        ),
        None => None,
    }
}

/// A provider with at least one successful probe is ranked by a strictly
/// positive average: as long as every successful lookup took at least one
/// nanosecond, the total is at least the count, so the average is at least 1.
pub proof fn lemma_average_positive(obs: Seq<LookupObservation>, limit_nanos: u64)
    requires
        success_count(obs, limit_nanos) > 0,
        forall|i: int|
            0 <= i < obs.len() && lookup_succeeded(#[trigger] obs[i], limit_nanos)
                ==> obs[i].elapsed_nanos >= 1,
    ensures
        average_of(obs, limit_nanos) matches Some(avg) && avg >= 1,
{
    lemma_success_total_ge_count(obs, limit_nanos);
    lemma_success_total_le_count_times_limit(obs, limit_nanos);
    let total = success_total(obs, limit_nanos);
    let count = success_count(obs, limit_nanos);
    assert(total / count >= 1 && total / count <= limit_nanos) by (nonlinear_arith)
        requires
            total >= count,
            count > 0,
            total <= count * limit_nanos,
    ;
}

/// Each successful lookup finished strictly under the limit, so the total of
/// the successes stays under their number times the limit.
proof fn lemma_success_total_le_count_times_limit(obs: Seq<LookupObservation>, limit_nanos: u64)
    ensures
        success_total(obs, limit_nanos) <= success_count(obs, limit_nanos) * limit_nanos,
    decreases obs.len(),
{
    if obs.len() > 0 {
        lemma_success_total_le_count_times_limit(obs.drop_last(), limit_nanos);
        let c = success_count(obs.drop_last(), limit_nanos);
        if lookup_succeeded(obs.last(), limit_nanos) {
            assert((c + 1) * limit_nanos == c * limit_nanos + limit_nanos) by (nonlinear_arith);
        }
    }
}

/// The successful lookups' total time is at least their number whenever each
/// successful lookup took at least one nanosecond.
proof fn lemma_success_total_ge_count(obs: Seq<LookupObservation>, limit_nanos: u64)
    requires
        forall|i: int|
            0 <= i < obs.len() && lookup_succeeded(#[trigger] obs[i], limit_nanos)
                ==> obs[i].elapsed_nanos >= 1,
    ensures
        success_total(obs, limit_nanos) >= success_count(obs, limit_nanos),
    decreases obs.len(),
{
    if obs.len() > 0 {
        assert(forall|i: int|
            0 <= i < obs.drop_last().len() && lookup_succeeded(
                #[trigger] obs.drop_last()[i],
                limit_nanos,
            ) ==> obs.drop_last()[i].elapsed_nanos >= 1);
        lemma_success_total_ge_count(obs.drop_last(), limit_nanos);
        assert(obs.last() == obs[obs.len() - 1]);
    }
}

} // verus!
