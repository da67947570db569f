use dns_bench::probe::{benchmark_provider, LookupObservation, OUTER_TIMEOUT_NANOS};
use dns_bench::provider::DnsProvider;
use dns_bench::schedule::{
    chunk_size, concat_chunks, partition_chunks, rank_providers, CHUNK_FLOOR,
};

fn provider(name: &str) -> DnsProvider {
    DnsProvider::new(
        name.to_owned(),
        "org".to_owned(),
        "loc".to_owned(),
        "1.2.3.4".to_owned(),
        None,
    )
}

fn providers(n: usize) -> Vec<DnsProvider> {
    (0..n).map(|i| provider(&format!("p{}", i))).collect()
}

#[test]
fn chunk_size_formula() {
    assert_eq!(chunk_size(1000, 8), 125);
    assert_eq!(chunk_size(1200, 4), 300);
}

#[test]
fn chunk_size_floor_applies() {
    assert_eq!(CHUNK_FLOOR, 50);
    assert_eq!(chunk_size(10, 16), 50);
    assert_eq!(chunk_size(0, 1), 50);
    assert_eq!(chunk_size(399, 8), 50);
}

#[test]
fn partition_round_trip_reproduces_input() {
    let input = providers(7);
    let names: Vec<String> = input.iter().map(|p| p.name.clone()).collect();
    let chunks = partition_chunks(input, 3);
    assert_eq!(chunks.len(), 3);
    assert_eq!(chunks[0].len(), 3);
    assert_eq!(chunks[1].len(), 3);
    assert_eq!(chunks[2].len(), 1);
    let back = concat_chunks(chunks);
    let back_names: Vec<String> = back.iter().map(|p| p.name.clone()).collect();
    assert_eq!(back_names, names);
}

#[test]
fn partition_exact_multiple_has_equal_chunks() {
    let chunks = partition_chunks(providers(6), 2);
    assert_eq!(chunks.len(), 3);
    assert!(chunks.iter().all(|c| c.len() == 2));
}

#[test]
fn partition_of_empty_input_is_empty() {
    let chunks = partition_chunks(Vec::new(), 4);
    assert!(chunks.is_empty());
    assert!(concat_chunks(chunks).is_empty());
}

#[test]
fn one_progress_signal_per_provider() {
    // The scheduler launches one probe task per provider of each chunk and
    // signals the progress sink once per task: counting signals over the
    // chunks must give exactly the input count, whatever the chunking.
    for (n, size) in [(7usize, 3usize), (6, 2), (5, 50), (0, 1), (9, 1)] {
        let chunks = partition_chunks(providers(n), size);
        let signals: usize = chunks.iter().map(|c| c.len()).sum();
        assert_eq!(signals, n);
    }
}

#[test]
fn ranking_sorts_ascending_and_drops_unmeasured() {
    let mut a = provider("a");
    let mut b = provider("b");
    let c = provider("c");
    a.avg_response_time = Some(30_000_000);
    b.avg_response_time = Some(10_000_000);
    let ranked = rank_providers(vec![a, b, c]);
    let names: Vec<&str> = ranked.iter().map(|p| p.name.as_str()).collect();
    assert_eq!(names, vec!["b", "a"]);
    for pair in ranked.windows(2) {
        assert!(pair[0].avg_response_time.unwrap() <= pair[1].avg_response_time.unwrap());
    }
}

#[test]
fn ranking_keeps_equal_latencies_in_input_order() {
    let mut a = provider("a");
    let mut b = provider("b");
    let mut c = provider("c");
    let mut d = provider("d");
    a.avg_response_time = Some(5);
    b.avg_response_time = Some(2);
    c.avg_response_time = Some(5);
    d.avg_response_time = Some(2);
    let ranked = rank_providers(vec![a, b, c, d]);
    let names: Vec<&str> = ranked.iter().map(|p| p.name.as_str()).collect();
    assert_eq!(names, vec!["b", "d", "a", "c"]);
}

#[test]
fn ranking_of_nothing_is_empty() {
    assert!(rank_providers(Vec::new()).is_empty());
    let unmeasured = providers(3);
    assert!(rank_providers(unmeasured).is_empty());
}

#[test]
fn full_pass_over_many_providers() {
    // A whole benchmarking pass with synthetic observations: partition with
    // the floor chunk size, benchmark every provider (every third one gets a
    // success whose latency falls as the index grows), merge, rank.
    let n = 120;
    let input = providers(n);
    let size = chunk_size(input.len(), 8);
    assert_eq!(size, 50);
    let mut chunks = partition_chunks(input, size);
    assert_eq!(chunks.iter().map(|c| c.len()).collect::<Vec<_>>(), vec![50, 50, 20]);
    let mut measured = 0;
    let mut index = 0;
    for chunk in chunks.iter_mut() {
        for p in chunk.iter_mut() {
            let obs = if index % 3 == 0 {
                measured += 1;
                vec![LookupObservation {
                    completed: true,
                    elapsed_nanos: 1_000_000 * (n as u64 - index as u64),
                }]
            } else {
                vec![LookupObservation { completed: false, elapsed_nanos: OUTER_TIMEOUT_NANOS }]
            };
            benchmark_provider(p, &obs);
            index += 1;
        }
    }
    let merged = concat_chunks(chunks);
    assert_eq!(merged.len(), n);
    let ranked = rank_providers(merged);
    assert_eq!(ranked.len(), measured);
    for pair in ranked.windows(2) {
        assert!(pair[0].avg_response_time.unwrap() <= pair[1].avg_response_time.unwrap());
    }
    // Latency falls with the index, so the last measured provider comes first.
    assert_eq!(ranked[0].name, "p117");
    assert_eq!(ranked[ranked.len() - 1].name, "p0");
}

#[test]
fn three_provider_scenario() {
    // Provider a: one probe succeeds in 10ms, the other four time out.
    // Provider b: all five probes succeed, averaging 20ms.
    // Provider c: nothing succeeds.
    let mut a = provider("a");
    let mut b = provider("b");
    let mut c = provider("c");
    let timeout = LookupObservation { completed: false, elapsed_nanos: OUTER_TIMEOUT_NANOS };
    let ok = |nanos: u64| LookupObservation { completed: true, elapsed_nanos: nanos };

    benchmark_provider(&mut a, &vec![ok(10_000_000), timeout, timeout, timeout, timeout]);
    benchmark_provider(
        &mut b,
        &vec![
            ok(18_000_000),
            ok(19_000_000),
            ok(20_000_000),
            ok(21_000_000),
            ok(22_000_000),
        ],
    );
    benchmark_provider(&mut c, &vec![timeout, timeout, timeout, timeout, timeout]);

    assert_eq!(a.avg_response_time, Some(10_000_000));
    assert_eq!(b.avg_response_time, Some(20_000_000));
    assert_eq!(c.avg_response_time, None);

    let ranked = rank_providers(vec![a, b, c]);
    let names: Vec<&str> = ranked.iter().map(|p| p.name.as_str()).collect();
    assert_eq!(names, vec!["a", "b"]);
    assert_eq!(ranked.len(), 2);
}
