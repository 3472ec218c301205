use vstd::prelude::*;

use crate::error::AppError;
use crate::merge::{
    SyntheticMasterPlaylist, fan_in, has_url, lemma_merge_best_per_url,
    merge_all, merge_samples, table_pairs,
};
use crate::sample::{
    PROBE_TIMEOUT_MS, ProbeEvent, QualitySample, SampleView, check_stream_quality,
    exceeds_bound, outcome_views, probe_outcome, successes, views,
};

verus! {

/// One entry of the candidate list: a manifest URL and an optional name.
#[derive(Debug, Clone)]
pub struct ManifestEntry {
    pub url: String,
    pub name: Option<String>,
}

/// The outcomes of probing `uris[i]` with event `events[i]`, for each `i`.
pub open spec fn probe_outcomes(uris: Seq<Seq<char>>, events: Seq<ProbeEvent>) -> Seq<
    Result<SampleView, AppError>,
> {
    Seq::new(uris.len(), |i: int| probe_outcome(uris[i], events[i]))
}

/// The samples that a playlist contributes: those of its probes that
/// succeeded, in the order of its stream URIs.
pub fn process_playlist(uris: &Vec<String>, events: &Vec<ProbeEvent>) -> (r: Vec<QualitySample>)
    requires
        uris@.len() == events@.len(),
    ensures
        views(r@) == successes(
            probe_outcomes(uris@.map_values(|u: String| u@), events@),
        ),
{
    let ghost us = uris@.map_values(|u: String| u@);
    let mut outcomes: Vec<Result<QualitySample, AppError>> = Vec::new();
    let mut i: usize = 0;
    while i < uris.len()
        invariant
            i <= uris@.len(),
            uris@.len() == events@.len(),
            us == uris@.map_values(|u: String| u@),
            outcome_views(outcomes@) == probe_outcomes(us, events@).take(i as int),
        decreases uris.len() - i,
    {
        let o = check_stream_quality(&uris[i], &events[i]);
        assert(us[i as int] == uris@[i as int]@);
        let ghost prev = outcomes@;
        outcomes.push(o);
        assert(outcome_views(prev).len() == i);
        assert(outcomes@ == prev.push(o));
        assert(outcome_views(outcomes@) =~= probe_outcomes(us, events@).take(i + 1));
        i = i + 1;
    }
    assert(probe_outcomes(us, events@).take(i as int) =~= probe_outcomes(us, events@));
    crate::sample::collect_samples(outcomes)
}

/// Removing the outcome of a probe that failed leaves the successes as they are.
proof fn lemma_successes_skip_failure(o: Seq<Result<SampleView, AppError>>, k: int)
    requires
        0 <= k < o.len(),
        o[k] is Err,
    ensures
        successes(o.remove(k)) == successes(o),
    decreases o.len(),
{
    if k == o.len() - 1 {
        assert(o.remove(k) =~= o.drop_last());
    } else {
        lemma_successes_skip_failure(o.drop_last(), k);
        assert(o.remove(k).drop_last() =~= o.drop_last().remove(k));
        assert(o.remove(k).last() == o.last());
    }
}

proof fn lemma_successes_within_bound(o: Seq<Result<SampleView, AppError>>)
    requires
        forall|j: int| 0 <= j < o.len() && (#[trigger] o[j]) is Ok ==> o[j]->Ok_0.response_ms <= PROBE_TIMEOUT_MS,
    ensures
        forall|i: int| 0 <= i < successes(o).len() ==> (#[trigger] successes(o)[i]).response_ms <= PROBE_TIMEOUT_MS,
    decreases o.len(),
{
    if o.len() > 0 {
        lemma_successes_within_bound(o.drop_last());
        assert forall|i: int| 0 <= i < successes(o).len() implies (#[trigger] successes(o)[i]).response_ms
            <= PROBE_TIMEOUT_MS by {
            if i < successes(o.drop_last()).len() {
                assert(successes(o)[i] == successes(o.drop_last())[i]);
            } else {
                assert(o[o.len() - 1] is Ok);
            }
        }
    }
}

/// A probe that exceeds its time bound never shows in what a playlist
/// contributes: every sample reported came within the bound, and leaving the
/// slow probe out changes nothing for its siblings.
pub proof fn lemma_slow_probe_dropped(uris: Seq<Seq<char>>, events: Seq<ProbeEvent>, k: int)
    requires
        uris.len() == events.len(),
        0 <= k < uris.len(),
        exceeds_bound(events[k]),
    ensures
        successes(probe_outcomes(uris, events)) == successes(
            probe_outcomes(uris.remove(k), events.remove(k)),
        ),
        forall|i: int|
            0 <= i < successes(probe_outcomes(uris, events)).len() ==> (#[trigger] successes(
                probe_outcomes(uris, events),
            )[i]).response_ms <= PROBE_TIMEOUT_MS,
{
    let o = probe_outcomes(uris, events);
    assert(o[k] is Err);
    lemma_successes_skip_failure(o, k);
    assert(o.remove(k) =~= probe_outcomes(uris.remove(k), events.remove(k)));
    lemma_successes_within_bound(o);
}

/// The sample batches of the entries whose manifest was fetched and probed,
/// in order; a failed entry contributes nothing.
pub open spec fn fetched_batches(results: Seq<Result<Seq<QualitySample>, AppError>>) -> Seq<Seq<QualitySample>>
    decreases results.len(),
{
    if results.len() == 0 {
        seq![]
    } else {
        match results.last() {
            Ok(b) => fetched_batches(results.drop_last()).push(b),
            Err(_) => fetched_batches(results.drop_last()),
        }
    }
}

pub open spec fn result_views(results: Seq<Result<Vec<QualitySample>, AppError>>) -> Seq<Result<Seq<QualitySample>, AppError>> {
    results.map_values(
        |r: Result<Vec<QualitySample>, AppError>|
            match r {
                Ok(b) => Ok(b@),
                Err(e) => Err(e),
            },
    )
}

/// The `(uri, bandwidth)` pairs of the playlist that a run over per-entry
/// results builds.
pub open spec fn run_pairs(results: Seq<Result<Seq<QualitySample>, AppError>>) -> Seq<(Seq<char>, u64)> {
    table_pairs(merge_all(views(fan_in(fetched_batches(results)))))
}

/// Builds the merged playlist of a run from the result of each entry: the
/// samples of its playlist, or the error that stopped it. Failed entries are
/// left out; the others are merged.
pub fn merge_entry_results(results: &Vec<Result<Vec<QualitySample>, AppError>>) -> (r: SyntheticMasterPlaylist)
    ensures
        r.pairs() == run_pairs(result_views(results@)),
        r.version == crate::merge::SYNTHETIC_VERSION,
        !r.independent_segments,
{
    let ghost rv = result_views(results@);
    let mut all: Vec<QualitySample> = Vec::new();
    let mut i: usize = 0;
    while i < results.len()
        invariant
            i <= results@.len(),
            rv == result_views(results@),
            all@ == fan_in(fetched_batches(rv.take(i as int))),
        decreases results.len() - i,
    {
        assert(rv.take(i + 1).drop_last() =~= rv.take(i as int));
        match &results[i] {
            Ok(b) => {
                let ghost before = all@;
                let mut j: usize = 0;
                while j < b.len()
                    invariant
                        j <= b@.len(),
                        all@ == before + b@.take(j as int),
                    decreases b.len() - j,
                {
                    all.push(b[j].duplicate());
                    assert(all@ =~= before + b@.take(j + 1));
                    j = j + 1;
                }
                assert(b@.take(j as int) =~= b@);
                assert(fetched_batches(rv.take(i + 1)) == fetched_batches(rv.take(i as int)).push(b@));
                assert(fetched_batches(rv.take(i + 1)).drop_last() =~= fetched_batches(rv.take(i as int)));
            },
            Err(_) => {},
        }
        i = i + 1;
    }
    assert(rv.take(i as int) =~= rv);
    let table = merge_samples(&all);
    SyntheticMasterPlaylist::from_table(&table)
}

/// A fetch failure of one entry keeps no other entry's samples out: the run
/// with the failed entry added at any place builds the same playlist, and every
/// URL sampled by a successful entry has a variant in it.
pub proof fn lemma_failed_entry_isolated(
    results: Seq<Result<Seq<QualitySample>, AppError>>,
    k: int,
    e: AppError,
)
    requires
        0 <= k <= results.len(),
    ensures
        run_pairs(results.insert(k, Err(e))) == run_pairs(results),
        forall|i: int, j: int|
            0 <= i < results.len() && results[i] is Ok && 0 <= j < results[i]->Ok_0.len()
                ==> has_url(merge_all(views(fan_in(fetched_batches(results)))), #[trigger] results[i]->Ok_0[j]@.url),
{
    lemma_fetched_insert_failure(results, k, e);
    let all = views(fan_in(fetched_batches(results)));
    lemma_merge_best_per_url(all);
    assert forall|i: int, j: int|
        0 <= i < results.len() && results[i] is Ok && 0 <= j < results[i]->Ok_0.len()
            implies has_url(merge_all(all), #[trigger] results[i]->Ok_0[j]@.url) by {
        lemma_fetched_contains(results, i, j);
        let p = choose|p: int| 0 <= p < fan_in(fetched_batches(results)).len()
            && fan_in(fetched_batches(results))[p] == results[i]->Ok_0[j];
        assert(all[p].url == results[i]->Ok_0[j]@.url);
        assert(has_url(all, results[i]->Ok_0[j]@.url));
    }
}

proof fn lemma_fetched_insert_failure(results: Seq<Result<Seq<QualitySample>, AppError>>, k: int, e: AppError)
    requires
        0 <= k <= results.len(),
    ensures
        fetched_batches(results.insert(k, Err(e))) == fetched_batches(results),
    decreases results.len(),
{
    let r2 = results.insert(k, Err(e));
    if k == results.len() {
        assert(r2.drop_last() =~= results);
    } else {
        lemma_fetched_insert_failure(results.drop_last(), k, e);
        assert(r2.drop_last() =~= results.drop_last().insert(k, Err(e)));
        assert(r2.last() == results.last());
    }
}

proof fn lemma_fetched_contains(results: Seq<Result<Seq<QualitySample>, AppError>>, i: int, j: int)
    requires
        0 <= i < results.len(),
        results[i] is Ok,
        0 <= j < results[i]->Ok_0.len(),
    ensures
        fan_in(fetched_batches(results)).contains(results[i]->Ok_0[j]),
    decreases results.len(),
{
    let f = fetched_batches(results);
    let x = results[i]->Ok_0[j];
    if i == results.len() - 1 {
        let p = fan_in(f.drop_last()).len() + j;
        assert(f.drop_last() =~= fetched_batches(results.drop_last()));
        assert(fan_in(f)[p] == x);
    } else {
        lemma_fetched_contains(results.drop_last(), i, j);
        let g = fetched_batches(results.drop_last());
        let p = choose|p: int| 0 <= p < fan_in(g).len() && fan_in(g)[p] == x;
        match results.last() {
            Ok(b) => {
                assert(f.drop_last() =~= g);
                assert(fan_in(f)[p] == x);
            },
            Err(_) => {},
        }
    }
}

} // verus!
