use vstd::prelude::*;

use crate::aggregate::{aggregate, lemma_aggregate_order_independent, lemma_aggregate_push};
use crate::dir::{
    eligible, eligible_len, nuke_contrib, nuke_emissions, nuke_summary, nuke_walk_wf, nuke_wants,
    scan_contrib, scan_emissions, scan_summary, skipped, Emission, WalkEvent,
};
use crate::utils::SummaryModel;

verus! {

/// Component-wise sum of two walk summaries.
pub open spec fn sm_plus(a: SummaryModel, b: SummaryModel) -> SummaryModel {
    SummaryModel {
        size: a.size + b.size,
        completed: a.completed + b.completed,
        error: a.error + b.error,
    }
}

/// The summaries of many walks, one per root, summed.
pub open spec fn scan_walk_totals(roots: Seq<Seq<WalkEvent>>) -> SummaryModel
    decreases roots.len(),
{
    if roots.len() == 0 {
        SummaryModel { size: 0, completed: 0, error: 0 }
    } else {
        sm_plus(scan_summary(roots.first()), scan_walk_totals(roots.drop_first()))
    }
}

/// Every root's emissions, one walk after the other.
pub open spec fn scan_all_emissions(roots: Seq<Seq<WalkEvent>>) -> Seq<Emission>
    decreases roots.len(),
{
    if roots.len() == 0 {
        Seq::empty()
    } else {
        scan_emissions(roots.first()) + scan_all_emissions(roots.drop_first())
    }
}

/// Aggregating a concatenation sums the two parts' aggregates.
pub proof fn lemma_aggregate_concat(a: Seq<Emission>, b: Seq<Emission>)
    ensures
        aggregate(a + b).size == aggregate(a).size + aggregate(b).size,
        aggregate(a + b).processed == aggregate(a).processed + aggregate(b).processed,
        aggregate(a + b).error == aggregate(a).error + aggregate(b).error,
    decreases b.len(),
{
    if b.len() == 0 {
        assert(a + b =~= a);
    } else {
        assert((a + b).drop_last() =~= a + b.drop_last());
        assert((a + b).last() == b.last());
        lemma_aggregate_concat(a, b.drop_last());
    }
}

/// Aggregating one walk's emissions recovers that walk's own summary:
/// the bytes agree, the failures agree, and the outcomes handled are
/// the walk's successes and failures together.
pub proof fn lemma_scan_walk_aggregate(events: Seq<WalkEvent>)
    ensures
        aggregate(scan_emissions(events)).size == scan_summary(events).size,
        aggregate(scan_emissions(events)).processed == scan_summary(events).completed
            + scan_summary(events).error,
        aggregate(scan_emissions(events)).error == scan_summary(events).error,
    decreases events.len(),
{
    if events.len() > 0 {
        let d = events.drop_last();
        let e = events.last();
        lemma_scan_walk_aggregate(d);
        match scan_contrib(e) {
            Some(em) => {
                assert(scan_emissions(d) + seq![em] =~= scan_emissions(d).push(em));
                lemma_aggregate_push(scan_emissions(d), em);
            },
            None => {
                assert(scan_emissions(d) + Seq::<Emission>::empty() =~= scan_emissions(d));
            },
        }
    }
}

/// Aggregating all roots' emissions, root after root, sums the
/// per-root walk summaries.
pub proof fn lemma_scan_all_aggregate(roots: Seq<Seq<WalkEvent>>)
    ensures
        aggregate(scan_all_emissions(roots)).size == scan_walk_totals(roots).size,
        aggregate(scan_all_emissions(roots)).processed == scan_walk_totals(roots).completed
            + scan_walk_totals(roots).error,
        aggregate(scan_all_emissions(roots)).error == scan_walk_totals(roots).error,
    decreases roots.len(),
{
    if roots.len() > 0 {
        lemma_scan_walk_aggregate(roots.first());
        lemma_scan_all_aggregate(roots.drop_first());
        lemma_aggregate_concat(scan_emissions(roots.first()), scan_all_emissions(roots.drop_first()));
    }
}

/// Concurrent correctness of a scan. The workers' emissions reach the
/// aggregator in any interleaving whatever: as long as the stream it
/// drained holds exactly the emissions of the per-root walks, its
/// final state carries the sum of the workers' own summaries — the
/// bytes, the failures, and the handled count, which equals the sum of
/// per-worker successes and failures.
pub proof fn lemma_concurrent_scan_totals(roots: Seq<Seq<WalkEvent>>, received: Seq<Emission>)
    requires
        received.to_multiset() == scan_all_emissions(roots).to_multiset(),
    ensures
        aggregate(received).size == scan_walk_totals(roots).size,
        aggregate(received).processed == scan_walk_totals(roots).completed + scan_walk_totals(
            roots,
        ).error,
        aggregate(received).error == scan_walk_totals(roots).error,
{
    lemma_aggregate_order_independent(received, scan_all_emissions(roots));
    lemma_scan_all_aggregate(roots);
}

/// A walk whose every event reached an eligible plain file.
pub open spec fn all_plain_files(events: Seq<WalkEvent>) -> bool {
    forall|i: int|
        0 <= i < events.len() ==> match #[trigger] events[i] {
            WalkEvent::Entry { name, meta } => eligible(meta),
            WalkEvent::WalkError { name, reason } => false,
        }
}

/// The byte lengths of a walk's eligible files, summed.
pub open spec fn total_file_size(events: Seq<WalkEvent>) -> int
    decreases events.len(),
{
    if events.len() == 0 {
        0
    } else {
        total_file_size(events.drop_last()) + match events.last() {
            WalkEvent::Entry { name, meta } => if eligible(meta) {
                eligible_len(meta)
            } else {
                0
            },
            WalkEvent::WalkError { name, reason } => 0,
        }
    }
}

/// Scanning a root that holds only plain files of known sizes counts
/// every file and sums exactly their sizes, with no failures.
pub proof fn lemma_scan_known_files(events: Seq<WalkEvent>)
    requires
        all_plain_files(events),
    ensures
        scan_summary(events).size == total_file_size(events),
        scan_summary(events).completed == events.len(),
        scan_summary(events).error == 0,
    decreases events.len(),
{
    if events.len() > 0 {
        assert(all_plain_files(events.drop_last())) by {
            assert(forall|i: int|
                0 <= i < events.len() - 1 ==> events.drop_last()[i] == events[i]);
        }
        lemma_scan_known_files(events.drop_last());
        assert(match events[events.len() - 1] {
            WalkEvent::Entry { name, meta } => eligible(meta),
            WalkEvent::WalkError { name, reason } => false,
        });
    }
}

/// Every root's walk reached only eligible plain files.
pub open spec fn all_roots_plain(roots: Seq<Seq<WalkEvent>>) -> bool {
    forall|i: int| 0 <= i < roots.len() ==> all_plain_files(#[trigger] roots[i])
}

/// The known file sizes of all roots, summed.
pub open spec fn total_sizes(roots: Seq<Seq<WalkEvent>>) -> int
    decreases roots.len(),
{
    if roots.len() == 0 {
        0
    } else {
        total_file_size(roots.first()) + total_sizes(roots.drop_first())
    }
}

/// The number of files over all roots.
pub open spec fn total_counts(roots: Seq<Seq<WalkEvent>>) -> int
    decreases roots.len(),
{
    if roots.len() == 0 {
        0
    } else {
        roots.first().len() + total_counts(roots.drop_first())
    }
}

/// Over roots that hold only plain files, the summed walk summaries
/// are the summed file sizes and counts, with no failures.
proof fn lemma_walk_totals_plain(roots: Seq<Seq<WalkEvent>>)
    requires
        all_roots_plain(roots),
    ensures
        scan_walk_totals(roots).size == total_sizes(roots),
        scan_walk_totals(roots).completed == total_counts(roots),
        scan_walk_totals(roots).error == 0,
    decreases roots.len(),
{
    if roots.len() > 0 {
        assert(all_plain_files(roots[0]));
        lemma_scan_known_files(roots.first());
        assert(all_roots_plain(roots.drop_first())) by {
            assert(forall|i: int|
                0 <= i < roots.len() - 1 ==> roots.drop_first()[i] == roots[i + 1]);
        }
        lemma_walk_totals_plain(roots.drop_first());
    }
}

/// Scanning disjoint roots that each hold a known set of plain files:
/// the final byte total is exactly the sum of all the files' sizes,
/// the success count is exactly the number of files, and nothing
/// fails — in whatever order the workers' emissions arrived.
pub proof fn lemma_scan_counts_every_known_file(
    roots: Seq<Seq<WalkEvent>>,
    received: Seq<Emission>,
)
    requires
        all_roots_plain(roots),
        received.to_multiset() == scan_all_emissions(roots).to_multiset(),
    ensures
        aggregate(received).size == total_sizes(roots),
        aggregate(received).processed == total_counts(roots),
        aggregate(received).error == 0,
{
    lemma_concurrent_scan_totals(roots, received);
    lemma_walk_totals_plain(roots);
}

/// A skipped entry — a directory or a symbolic link — is invisible to
/// a scan: taking it out of the walk changes neither the emissions nor
/// the summary, so such entries never appear among the outcomes and
/// never contribute to any total.
pub proof fn lemma_scan_skip_invisible(events: Seq<WalkEvent>, i: int)
    requires
        0 <= i < events.len(),
        skipped(events[i]),
    ensures
        scan_emissions(events.remove(i)) == scan_emissions(events),
        scan_summary(events.remove(i)) == scan_summary(events),
    decreases events.len(),
{
    if i == events.len() - 1 {
        assert(events.remove(i) =~= events.drop_last());
        assert(scan_contrib(events.last()) is None);
        assert(scan_emissions(events) =~= scan_emissions(events.drop_last()) + Seq::<
            Emission,
        >::empty());
        assert(scan_emissions(events.drop_last()) + Seq::<Emission>::empty() =~= scan_emissions(
            events.drop_last(),
        ));
    } else {
        assert(events.remove(i).drop_last() =~= events.drop_last().remove(i));
        assert(events.remove(i).last() == events.last());
        lemma_scan_skip_invisible(events.drop_last(), i);
    }
}

/// A skipped entry is invisible to a nuke walk in the same way: it is
/// never deleted, never emitted, never counted.
pub proof fn lemma_nuke_skip_invisible(
    pairs: Seq<(WalkEvent, Option<Result<(), String>>)>,
    i: int,
)
    requires
        0 <= i < pairs.len(),
        nuke_walk_wf(pairs),
        skipped(pairs[i].0),
    ensures
        !nuke_wants(pairs[i].0),
        nuke_emissions(pairs.remove(i)) == nuke_emissions(pairs),
        nuke_summary(pairs.remove(i)) == nuke_summary(pairs),
    decreases pairs.len(),
{
    assert(nuke_pair_wf_at(pairs, i));
    if i == pairs.len() - 1 {
        assert(pairs.remove(i) =~= pairs.drop_last());
        assert(nuke_contrib(pairs.last().0, pairs.last().1) is None);
        assert(nuke_emissions(pairs.drop_last()) + Seq::<Emission>::empty() =~= nuke_emissions(
            pairs.drop_last(),
        ));
    } else {
        assert(pairs.remove(i).drop_last() =~= pairs.drop_last().remove(i));
        assert(pairs.remove(i).last() == pairs.last());
        assert(nuke_walk_wf(pairs.drop_last())) by {
            assert(forall|k: int|
                0 <= k < pairs.len() - 1 ==> pairs.drop_last()[k] == pairs[k]);
        }
        lemma_nuke_skip_invisible(pairs.drop_last(), i);
    }
}

/// The well-formedness of one pair of a nuke walk, spelled out for use
/// as a trigger.
pub open spec fn nuke_pair_wf_at(pairs: Seq<(WalkEvent, Option<Result<(), String>>)>, i: int) -> bool {
    crate::dir::nuke_pair_wf(pairs[i].0, pairs[i].1)
}

/// How many events of a nuke walk reached an eligible plain file.
pub open spec fn count_eligible(pairs: Seq<(WalkEvent, Option<Result<(), String>>)>) -> int
    decreases pairs.len(),
{
    if pairs.len() == 0 {
        0
    } else {
        count_eligible(pairs.drop_last()) + if nuke_wants(pairs.last().0) {
            1int
        } else {
            0int
        }
    }
}

/// The byte lengths of a nuke walk's eligible files, summed.
pub open spec fn total_eligible_size(pairs: Seq<(WalkEvent, Option<Result<(), String>>)>) -> int
    decreases pairs.len(),
{
    if pairs.len() == 0 {
        0
    } else {
        total_eligible_size(pairs.drop_last()) + match pairs.last().0 {
            WalkEvent::Entry { name, meta } => if eligible(meta) {
                eligible_len(meta)
            } else {
                0
            },
            WalkEvent::WalkError { name, reason } => 0,
        }
    }
}

/// Every deletion that was attempted succeeded.
pub open spec fn deletions_all_ok(pairs: Seq<(WalkEvent, Option<Result<(), String>>)>) -> bool {
    forall|i: int|
        0 <= i < pairs.len() ==> match #[trigger] pairs[i].1 {
            Some(r) => r is Ok,
            None => true,
        }
}

/// A nuke walk deletes exactly the eligible plain files, and nothing
/// else: deletion is attempted on an event if and only if it reached
/// such a file, and when every attempt succeeds, the walk's completed
/// count is exactly the number of those files and its byte total is
/// exactly their summed sizes. Directories are never deleted at all.
pub proof fn lemma_nuke_deletes_exactly_eligible(
    pairs: Seq<(WalkEvent, Option<Result<(), String>>)>,
)
    requires
        nuke_walk_wf(pairs),
        deletions_all_ok(pairs),
    ensures
        forall|i: int|
            0 <= i < pairs.len() ==> (#[trigger] pairs[i].1 is Some <==> nuke_wants(pairs[i].0)),
        nuke_summary(pairs).completed == count_eligible(pairs),
        nuke_summary(pairs).size == total_eligible_size(pairs),
    decreases pairs.len(),
{
    assert forall|i: int| 0 <= i < pairs.len() implies (#[trigger] pairs[i].1 is Some
        <==> nuke_wants(pairs[i].0)) by {
        assert(nuke_pair_wf_at(pairs, i));
    }
    if pairs.len() > 0 {
        assert(nuke_walk_wf(pairs.drop_last()) && deletions_all_ok(pairs.drop_last())) by {
            assert(forall|k: int|
                0 <= k < pairs.len() - 1 ==> pairs.drop_last()[k] == pairs[k]);
        }
        lemma_nuke_deletes_exactly_eligible(pairs.drop_last());
        assert(nuke_pair_wf_at(pairs, pairs.len() - 1));
        assert(match pairs[pairs.len() - 1].1 {
            Some(r) => r is Ok,
            None => true,
        });
    }
}

} // verus!
