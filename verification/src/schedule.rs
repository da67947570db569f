use vstd::prelude::*;

use crate::provider::DnsProvider;

verus! {

/// Smallest chunk the scheduler hands to the concurrent pool, so that small
/// catalogs or high core counts do not degenerate into tiny batches.
pub const CHUNK_FLOOR: usize = 50;

/// Size of the slices the provider list is probed in: roughly `n / cpus`
/// providers per available processing unit, never fewer than `CHUNK_FLOOR`.
/// One chunk's worth of probes runs concurrently at a time.
pub fn chunk_size(n: usize, cpus: usize) -> (s: usize)
    requires
        cpus >= 1,
    ensures
        s == if n / cpus > CHUNK_FLOOR { n / cpus } else { CHUNK_FLOOR },
        s >= CHUNK_FLOOR,
        s >= 1,
{
    let quotient: usize = n / cpus;
    if quotient > CHUNK_FLOOR {
        quotient
    } else {
        CHUNK_FLOOR
    }
}

/// The chunks as mathematical sequences, for stating what partitioning does.
pub open spec fn chunk_views(chunks: Seq<Vec<DnsProvider>>) -> Seq<Seq<DnsProvider>> {
    chunks.map_values(|c: Vec<DnsProvider>| c@)
}

/// Splits the provider list into consecutive chunks of at most `size`
/// providers, in order and without loss: every chunk but the last is exactly
/// `size` long, no chunk is empty, and concatenating the chunks in order
/// gives back exactly the input.
pub fn partition_chunks(providers: Vec<DnsProvider>, size: usize) -> (chunks: Vec<
    Vec<DnsProvider>,
>)
    requires
        size >= 1,
    ensures
        chunk_views(chunks@).flatten() == providers@,
        forall|i: int| 0 <= i < chunks@.len() ==> 1 <= (#[trigger] chunks@[i])@.len() <= size,
        forall|i: int| 0 <= i < chunks@.len() - 1 ==> (#[trigger] chunks@[i])@.len() == size,
{
    let ghost orig = providers@;
    let mut rest = providers;
    let mut chunks: Vec<Vec<DnsProvider>> = Vec::new();
    let mut current: Vec<DnsProvider> = Vec::new();
    proof {
        assert((chunk_views(chunks@).flatten() + current@) + rest@ =~= orig);
    }
    while rest.len() > 0
        invariant
            size >= 1,
            current@.len() < size,
            chunk_views(chunks@).flatten() + current@ + rest@ == orig,
            forall|i: int| 0 <= i < chunks@.len() ==> (#[trigger] chunks@[i])@.len() == size,
        decreases rest@.len(),
    {
        let ghost rest_before = rest@;
        let p = rest.remove(0);
        proof {
            assert((chunk_views(chunks@).flatten() + current@.push(p)) + rest@ =~= (chunk_views(
                chunks@,
            ).flatten() + current@) + rest_before);
        }
        current.push(p);
        if current.len() == size {
            proof {
                assert(chunk_views(chunks@.push(current)) =~= chunk_views(chunks@).push(
                    current@,
                ));
                chunk_views(chunks@).lemma_flatten_push(current@);
                assert((chunk_views(chunks@.push(current)).flatten() + Seq::<
                    DnsProvider,
                >::empty()) + rest@ =~= (chunk_views(chunks@).flatten() + current@) + rest@);
            }
            chunks.push(current);
            current = Vec::new();
        }
    }
    if current.len() > 0 {
        proof {
            assert(chunk_views(chunks@.push(current)) =~= chunk_views(chunks@).push(current@));
            chunk_views(chunks@).lemma_flatten_push(current@);
        }
        chunks.push(current);
    }
    proof {
        assert(chunk_views(chunks@).flatten() =~= orig);
    }
    chunks
}

/// Puts the chunks back together in order into one flat list.
pub fn concat_chunks(chunks: Vec<Vec<DnsProvider>>) -> (r: Vec<DnsProvider>)
    ensures
        r@ == chunk_views(chunks@).flatten(),
{
    let ghost orig = chunks@;
    let mut rest = chunks;
    let mut out: Vec<DnsProvider> = Vec::new();
    proof {
        assert(out@ + chunk_views(rest@).flatten() =~= chunk_views(orig).flatten());
    }
    while rest.len() > 0
        invariant
            out@ + chunk_views(rest@).flatten() == chunk_views(orig).flatten(),
        decreases rest@.len(),
    {
        let ghost rest_before = rest@;
        let mut c = rest.remove(0);
        proof {
            assert(chunk_views(rest_before).first() == c@);
            assert(chunk_views(rest_before).drop_first() =~= chunk_views(rest@));
            assert(chunk_views(rest_before).flatten() == c@ + chunk_views(rest@).flatten());
            assert((out@ + c@) + chunk_views(rest@).flatten() =~= out@ + (c@ + chunk_views(
                rest@,
            ).flatten()));
        }
        out.append(&mut c);
    }
    proof {
        assert(out@ =~= chunk_views(orig).flatten());
    }
    out
}

/// How many providers the chunks hold together.
pub open spec fn total_providers(chunks: Seq<Seq<DnsProvider>>) -> nat
    decreases chunks.len(),
{
    if chunks.len() == 0 {
        0
    } else {
        chunks.first().len() + total_providers(chunks.drop_first())
    }
}

/// The scheduler signals the progress sink once per probe task and launches
/// one task per provider of each chunk, so a run over any chunking of the
/// input emits exactly one signal per provider of the flattened input,
/// whatever mix of successes and failures the probes produce.
pub proof fn lemma_progress_signal_total(chunks: Seq<Seq<DnsProvider>>)
    ensures
        total_providers(chunks) == chunks.flatten().len(),
    decreases chunks.len(),
{
    if chunks.len() > 0 {
        lemma_progress_signal_total(chunks.drop_first());
    }
}

/// The providers the ranking keeps: those that were benchmarked.
pub open spec fn benchmarked_pred() -> spec_fn(DnsProvider) -> bool {
    |p: DnsProvider| p.benchmarked()
}

/// Keeps exactly the providers that were benchmarked, in input order.
pub fn filter_successful(providers: Vec<DnsProvider>) -> (r: Vec<DnsProvider>)
    ensures
        r@ == providers@.filter(benchmarked_pred()),
{
    let ghost pred = benchmarked_pred();
    let ghost orig = providers@;
    let mut rest = providers;
    let mut out: Vec<DnsProvider> = Vec::new();
    let ghost taken: Seq<DnsProvider> = Seq::empty();
    proof {
        reveal(Seq::filter);
    }
    while rest.len() > 0
        invariant
            taken + rest@ == orig,
            out@ == taken.filter(pred),
            pred == benchmarked_pred(),
        decreases rest@.len(),
    {
        let ghost rest_before = rest@;
        let p = rest.remove(0);
        proof {
            assert(taken.push(p) + rest@ =~= taken + rest_before);
            reveal(Seq::filter);
            assert(taken.push(p).drop_last() =~= taken);
            assert(taken.push(p).last() == p);
            if pred(p) {
                assert(taken.push(p).filter(pred) =~= taken.filter(pred).push(p));
            } else {
                assert(taken.push(p).filter(pred) =~= taken.filter(pred));
            }
        }
        if p.avg_response_time.is_some() {
            out.push(p);
        }
        proof {
            taken = taken.push(p);
        }
    }
    proof {
        assert(taken =~= orig);
    }
    out
}

/// Ascending order by measured latency, over providers that all carry one.
pub open spec fn sorted_by_latency(s: Seq<DnsProvider>) -> bool {
    forall|i: int, j: int|
        0 <= i < j < s.len() ==> (#[trigger] s[i]).latency() <= (#[trigger] s[j]).latency()
}

/// Every provider of the sequence carries a measurement.
pub open spec fn all_benchmarked(s: Seq<DnsProvider>) -> bool {
    forall|i: int| 0 <= i < s.len() ==> (#[trigger] s[i]).benchmarked()
}

/// Where one more provider lands among already-ranked ones: after every
/// provider whose latency is the same or lower, before the first strictly
/// slower one. A provider ranked later thus never overtakes an equally fast
/// one ranked before it.
pub open spec fn insert_by_latency(p: DnsProvider, s: Seq<DnsProvider>) -> Seq<DnsProvider>
    decreases s.len(),
{
    if s.len() == 0 {
        seq![p]
    } else if p.latency() < s[0].latency() {
        seq![p] + s
    } else {
        seq![s[0]] + insert_by_latency(p, s.drop_first())
    }
}

/// The ranking, pinned completely: the providers in ascending order of
/// latency, providers of equal latency in input order (a stable sort).
pub open spec fn stable_ranking(s: Seq<DnsProvider>) -> Seq<DnsProvider>
    decreases s.len(),
{
    if s.len() == 0 {
        s
    } else {
        insert_by_latency(s.last(), stable_ranking(s.drop_last()))
    }
}

/// Inserting at the first position whose provider is strictly slower is
/// exactly what `insert_by_latency` does.
proof fn lemma_insert_by_latency_at(p: DnsProvider, s: Seq<DnsProvider>, pos: int)
    requires
        0 <= pos <= s.len(),
        forall|t: int| 0 <= t < pos ==> (#[trigger] s[t]).latency() <= p.latency(),
        pos < s.len() ==> s[pos].latency() > p.latency(),
    ensures
        insert_by_latency(p, s) == s.insert(pos, p),
    decreases s.len(),
{
    if s.len() == 0 {
        assert(insert_by_latency(p, s) =~= s.insert(0, p));
    } else if pos == 0 {
        assert(insert_by_latency(p, s) =~= s.insert(0, p));
    } else {
        assert(s[0].latency() <= p.latency());
        lemma_insert_by_latency_at(p, s.drop_first(), pos - 1);
        assert(seq![s[0]] + s.drop_first().insert(pos - 1, p) =~= s.insert(pos, p));
    }
}

/// Inserting a benchmarked provider at its position keeps the ranking
/// sorted, keeps every entry benchmarked, and adds exactly that provider.
proof fn lemma_insert_keeps_ranking(p: DnsProvider, s: Seq<DnsProvider>, pos: int)
    requires
        0 <= pos <= s.len(),
        forall|t: int| 0 <= t < pos ==> (#[trigger] s[t]).latency() <= p.latency(),
        pos < s.len() ==> s[pos].latency() > p.latency(),
        sorted_by_latency(s),
        all_benchmarked(s),
        p.benchmarked(),
    ensures
        sorted_by_latency(s.insert(pos, p)),
        all_benchmarked(s.insert(pos, p)),
        s.insert(pos, p).to_multiset() == s.to_multiset().insert(p),
        s.insert(pos, p).len() == s.len() + 1,
{
    broadcast use vstd::seq_lib::group_to_multiset_ensures;
    broadcast use vstd::multiset::group_multiset_axioms;

    s.insert_ensures(pos, p);
    let r = s.insert(pos, p);
    assert forall|i: int, j: int| 0 <= i < j < r.len() implies (#[trigger] r[i]).latency() <= (
    #[trigger] r[j]).latency() by {
        if i < pos && j > pos {
            assert(r[i] == s[i] && r[j] == s[j - 1]);
        }
    }
    assert(r.to_multiset() =~= s.to_multiset().insert(p)) by {
        assert(r =~= s.subrange(0, pos).push(p) + s.subrange(pos, s.len() as int));
        assert(s =~= s.subrange(0, pos) + s.subrange(pos, s.len() as int));
        vstd::seq_lib::lemma_multiset_commutative(
            s.subrange(0, pos).push(p),
            s.subrange(pos, s.len() as int),
        );
        vstd::seq_lib::lemma_multiset_commutative(
            s.subrange(0, pos),
            s.subrange(pos, s.len() as int),
        );
        assert(s.subrange(0, pos).push(p).to_multiset() =~= s.subrange(0, pos).to_multiset()
            .insert(p));
    }
}

/// Sorts benchmarked providers ascending by their average latency, equal
/// latencies in input order: the result is exactly `stable_ranking` of the
/// input — in particular a rearrangement with the same providers and the
/// same multiplicities.
pub fn sort_by_latency(providers: Vec<DnsProvider>) -> (r: Vec<DnsProvider>)
    requires
        all_benchmarked(providers@),
    ensures
        r@ == stable_ranking(providers@),
        r@.to_multiset() == providers@.to_multiset(),
        r@.len() == providers@.len(),
        sorted_by_latency(r@),
        all_benchmarked(r@),
{
    let ghost orig = providers@;
    let mut rest = providers;
    let mut out: Vec<DnsProvider> = Vec::new();
    let ghost taken: Seq<DnsProvider> = Seq::empty();
    proof {
        broadcast use vstd::seq_lib::group_to_multiset_ensures;
        broadcast use vstd::multiset::group_multiset_axioms;

        assert(taken + rest@ =~= orig);
        assert(out@ =~= stable_ranking(taken));
        assert(out@.to_multiset() =~= taken.to_multiset());
    }
    while rest.len() > 0
        invariant
            taken + rest@ == orig,
            all_benchmarked(orig),
            all_benchmarked(out@),
            sorted_by_latency(out@),
            out@ == stable_ranking(taken),
            out@.to_multiset() == taken.to_multiset(),
            out@.len() == taken.len(),
        decreases rest@.len(),
    {
        let ghost rest_before = rest@;
        let p = rest.remove(0);
        proof {
            assert(taken.push(p) + rest@ =~= taken + rest_before);
            assert(p == orig[taken.len() as int]);
            assert(p.benchmarked());
        }
        let lat = p.avg_response_time.unwrap();
        let mut pos: usize = 0;
        while pos < out.len()
            invariant
                0 <= pos <= out@.len(),
                all_benchmarked(out@),
                p.avg_response_time == Some(lat),
                forall|t: int| 0 <= t < pos ==> (#[trigger] out@[t]).latency() <= lat,
            ensures
                0 <= pos <= out@.len(),
                forall|t: int| 0 <= t < pos ==> (#[trigger] out@[t]).latency() <= lat,
                pos < out@.len() ==> out@[pos as int].latency() > lat,
            decreases out@.len() - pos,
        {
            let ahead = out[pos].avg_response_time.unwrap();
            if ahead > lat {
                break ;
            }
            pos = pos + 1;
        }
        proof {
            broadcast use vstd::seq_lib::group_to_multiset_ensures;
            broadcast use vstd::multiset::group_multiset_axioms;

            lemma_insert_by_latency_at(p, out@, pos as int);
            lemma_insert_keeps_ranking(p, out@, pos as int);
            assert(taken.push(p).drop_last() =~= taken);
            assert(stable_ranking(taken.push(p)) == insert_by_latency(p, stable_ranking(taken)));
        }
        out.insert(pos, p);
        proof {
            broadcast use vstd::seq_lib::group_to_multiset_ensures;

            taken = taken.push(p);
            assert(out@.to_multiset() =~= taken.to_multiset());
        }
    }
    proof {
        assert(taken =~= orig);
    }
    out
}

/// A provider with no measurement — one with zero successful probes — never
/// appears in a ranking: every ranked provider carries a measurement.
pub proof fn lemma_unmeasured_absent(ranked: Seq<DnsProvider>, p: DnsProvider)
    requires
        all_benchmarked(ranked),
        !p.benchmarked(),
    ensures
        !ranked.contains(p),
{
}

/// The benchmarking pass's final step: drop every provider that was never
/// successfully probed, and rank the rest ascending by average latency,
/// equal latencies in input order. A provider with no measurement never
/// appears in the result, and the result holds exactly the benchmarked
/// providers of the input.
pub fn rank_providers(providers: Vec<DnsProvider>) -> (r: Vec<DnsProvider>)
    ensures
        r@ == stable_ranking(providers@.filter(benchmarked_pred())),
        r@.to_multiset() == providers@.filter(benchmarked_pred()).to_multiset(),
        r@.len() == providers@.filter(benchmarked_pred()).len(),
        sorted_by_latency(r@),
        all_benchmarked(r@),
{
    let ghost orig = providers@;
    let kept = filter_successful(providers);
    proof {
        assert forall|i: int| 0 <= i < kept@.len() implies (#[trigger] kept@[i]).benchmarked() by {
            orig.lemma_filter_pred(benchmarked_pred(), i);
        }
    }
    sort_by_latency(kept)
}

} // verus!
