use dns_bench::probe::{
    benchmark_provider, classify_lookup, resolver_plan, LookupObservation, ProbeOutcome,
    ProbeStats, DNS_PORT, OUTER_TIMEOUT_NANOS, RESOLVER_ATTEMPTS, RESOLVER_TIMEOUT_SECS,
};
use dns_bench::provider::DnsProvider;

fn provider(name: &str, ipv4: &str) -> DnsProvider {
    DnsProvider::new(
        name.to_owned(),
        "org".to_owned(),
        "loc".to_owned(),
        ipv4.to_owned(),
        None,
    )
}

fn success(nanos: u64) -> LookupObservation {
    LookupObservation { completed: true, elapsed_nanos: nanos }
}

fn timed_out() -> LookupObservation {
    LookupObservation { completed: false, elapsed_nanos: OUTER_TIMEOUT_NANOS }
}

#[test]
fn new_provider_has_no_measurement() {
    let p = provider("a", "8.8.8.8");
    assert_eq!(p.avg_response_time, None);
    assert_eq!(p.name, "a");
    assert_eq!(p.ipv4, "8.8.8.8");
}

#[test]
fn lookup_at_deadline_is_a_failure() {
    let at_deadline = LookupObservation { completed: true, elapsed_nanos: OUTER_TIMEOUT_NANOS };
    assert!(matches!(
        classify_lookup(at_deadline, OUTER_TIMEOUT_NANOS),
        ProbeOutcome::Failure
    ));
}

#[test]
fn lookup_just_under_deadline_succeeds() {
    let just_under = LookupObservation {
        completed: true,
        elapsed_nanos: OUTER_TIMEOUT_NANOS - 1,
    };
    match classify_lookup(just_under, OUTER_TIMEOUT_NANOS) {
        ProbeOutcome::Success { elapsed_nanos } => {
            assert_eq!(elapsed_nanos, OUTER_TIMEOUT_NANOS - 1)
        }
        ProbeOutcome::Failure => panic!("expected success"),
    }
}

#[test]
fn incomplete_lookup_is_a_failure_even_when_fast() {
    let fast_error = LookupObservation { completed: false, elapsed_nanos: 1 };
    assert!(matches!(
        classify_lookup(fast_error, OUTER_TIMEOUT_NANOS),
        ProbeOutcome::Failure
    ));
}

#[test]
fn stats_record_success_and_failure() {
    let mut stats = ProbeStats::new();
    assert_eq!(stats.successful_queries, 0);
    assert_eq!(stats.total_nanos, 0);
    stats.record(ProbeOutcome::Success { elapsed_nanos: 40 });
    stats.record(ProbeOutcome::Failure);
    stats.record(ProbeOutcome::Success { elapsed_nanos: 2 });
    assert_eq!(stats.successful_queries, 2);
    assert_eq!(stats.total_nanos, 42);
}

#[test]
fn average_over_exactly_the_successful_probes() {
    let mut p = provider("a", "8.8.8.8");
    let obs = vec![
        success(10_000_000),
        timed_out(),
        success(20_000_000),
        success(30_000_000),
        timed_out(),
    ];
    benchmark_provider(&mut p, &obs);
    assert_eq!(p.avg_response_time, Some(20_000_000));
    assert!(p.avg_response_time.unwrap() > 0);
}

#[test]
fn average_uses_truncating_division() {
    let mut p = provider("a", "8.8.8.8");
    let obs = vec![success(3), success(4)];
    benchmark_provider(&mut p, &obs);
    assert_eq!(p.avg_response_time, Some(3));
}

#[test]
fn zero_successes_leave_provider_unmeasured() {
    let mut p = provider("a", "8.8.8.8");
    let obs = vec![timed_out(), timed_out(), timed_out(), timed_out(), timed_out()];
    benchmark_provider(&mut p, &obs);
    assert_eq!(p.avg_response_time, None);
}

#[test]
fn empty_probe_set_leaves_provider_unmeasured() {
    let mut p = provider("a", "8.8.8.8");
    benchmark_provider(&mut p, &Vec::new());
    assert_eq!(p.avg_response_time, None);
}

#[test]
fn benchmark_keeps_provider_identity() {
    let mut p = provider("a", "8.8.8.8");
    benchmark_provider(&mut p, &vec![success(5)]);
    assert_eq!(p.name, "a");
    assert_eq!(p.organization, "org");
    assert_eq!(p.location, "loc");
    assert_eq!(p.ipv4, "8.8.8.8");
    assert_eq!(p.ipv6, None);
    assert_eq!(p.avg_response_time, Some(5));
}

#[test]
fn resolver_plan_fixed_policy() {
    let p = provider("a", "9.9.9.9");
    let plan = resolver_plan(&p).expect("valid address must yield a plan");
    assert_eq!(plan.octets, (9, 9, 9, 9));
    assert_eq!(plan.port, DNS_PORT);
    assert_eq!(plan.port, 53);
    assert_eq!(plan.timeout_secs, RESOLVER_TIMEOUT_SECS);
    assert_eq!(plan.timeout_secs, 3);
    assert_eq!(plan.attempts, RESOLVER_ATTEMPTS);
    assert_eq!(plan.attempts, 2);
    assert_eq!(plan.outer_timeout_nanos, OUTER_TIMEOUT_NANOS);
    assert_eq!(plan.outer_timeout_nanos, 5_000_000_000);
}

#[test]
fn resolver_plan_rejects_malformed_address() {
    let p = provider("bad", "not-an-address");
    assert!(resolver_plan(&p).is_none());
}
