use vstd::prelude::*;

use crate::dir::{Emission, Outcome};
use crate::utils::DirData;

verus! {

/// Mathematical model of the aggregator's live state: bytes seen,
/// outcomes handled (successes and failures alike), failures alone.
pub ghost struct AggModel {
    pub size: int,
    pub processed: int,
    pub error: int,
}

/// How one received outcome moves the aggregator's state.
pub open spec fn agg_step(t: AggModel, o: Outcome) -> AggModel {
    match o {
        Outcome::Success { len } => AggModel {
            size: t.size + len,
            processed: t.processed + 1,
            error: t.error,
        },
        Outcome::Failure { reason } => AggModel {
            size: t.size,
            processed: t.processed + 1,
            error: t.error + 1,
        },
    }
}

/// The aggregator's state after draining a sequence of emissions in
/// arrival order.
pub open spec fn aggregate(s: Seq<Emission>) -> AggModel
    decreases s.len(),
{
    if s.len() == 0 {
        AggModel { size: 0, processed: 0, error: 0 }
    } else {
        agg_step(aggregate(s.drop_last()), s.last().outcome)
    }
}

/// The aggregator's live totals: the single consumer's running state,
/// mutated only between channel receives.
pub struct Totals {
    pub size: u64,
    pub processed: u64,
    pub error: u64,
}

impl View for Totals {
    type V = AggModel;

    open spec fn view(&self) -> AggModel {
        AggModel { size: self.size as int, processed: self.processed as int, error: self.error as int }
    }
}

impl Totals {
    /// Failures are a subset of the outcomes handled.
    pub open spec fn wf(self) -> bool {
        self.error <= self.processed
    }

    pub fn new() -> (r: Self)
        ensures
            r@ == (AggModel { size: 0, processed: 0, error: 0 }),
            r.wf(),
    {
        Self { size: 0, processed: 0, error: 0 }
    }

    /// Absorb one received outcome into the live totals.
    pub fn absorb(&mut self, em: &Emission)
        requires
            agg_step(old(self)@, em.outcome).size <= u64::MAX,
            agg_step(old(self)@, em.outcome).processed <= u64::MAX,
            agg_step(old(self)@, em.outcome).error <= u64::MAX,
        ensures
            final(self)@ == agg_step(old(self)@, em.outcome),
            old(self).wf() ==> final(self).wf(),
    {
        self.processed = self.processed + 1;
        match &em.outcome {
            Outcome::Success { len } => {
                self.size = self.size + *len;
            },
            Outcome::Failure { reason } => {
                self.error = self.error + 1;
            },
        }
    }

    /// The combined run summary: total bytes, outcomes that succeeded,
    /// outcomes that failed.
    pub fn summary(&self) -> (r: DirData)
        requires
            self.wf(),
        ensures
            r@.size == self@.size,
            r@.completed == self@.processed - self@.error,
            r@.error == self@.error,
    {
        DirData::from(self.size, self.processed - self.error, self.error)
    }
}

pub uninterp spec fn human_bytes_of(n: u64) -> Seq<char>;

/// Relies on the Display of indicatif::HumanBytes: a binary-scaled,
/// human-readable rendering of a byte count, a function of the count
/// alone.
#[verifier::external_body]
fn human_bytes(n: u64) -> (r: String)
    ensures
        r@ == human_bytes_of(n),
{
    indicatif::HumanBytes(n).to_string()
}

impl Totals {
    /// The running byte total, rendered for the progress line.
    pub fn bytes_text(&self) -> (r: String)
        ensures
            r@ == human_bytes_of(self.size),
    {
        human_bytes(self.size)
    }
}

/// Drain a whole sequence of emissions, in order, into fresh totals.
pub fn aggregate_emissions(received: &Vec<Emission>) -> (t: Totals)
    requires
        aggregate(received@).size <= u64::MAX,
        aggregate(received@).processed <= u64::MAX,
    ensures
        t@ == aggregate(received@),
        t.wf(),
{
    let mut t = Totals::new();
    let mut i: usize = 0;
    while i < received.len()
        invariant
            0 <= i <= received.len(),
            t@ == aggregate(received@.take(i as int)),
            t.wf(),
            aggregate(received@).size <= u64::MAX,
            aggregate(received@).processed <= u64::MAX,
        decreases received.len() - i,
    {
        proof {
            assert(received@.take(i + 1) =~= received@.take(i as int).push(received@[i as int]));
            lemma_aggregate_push(received@.take(i as int), received@[i as int]);
            lemma_aggregate_prefix_le(received@, i + 1);
        }
        t.absorb(&received[i]);
        i = i + 1;
    }
    proof {
        assert(received@.take(received@.len() as int) =~= received@);
    }
    t
}

/// Draining one more emission applies one aggregation step.
pub proof fn lemma_aggregate_push(s: Seq<Emission>, e: Emission)
    ensures
        aggregate(s.push(e)) == agg_step(aggregate(s), e.outcome),
{
    assert(s.push(e).drop_last() =~= s);
    assert(s.push(e).last() == e);
}

/// One aggregation step never lowers any component.
pub proof fn lemma_agg_step_ge(t: AggModel, o: Outcome)
    ensures
        agg_step(t, o).size >= t.size,
        agg_step(t, o).processed >= t.processed,
        agg_step(t, o).error >= t.error,
{
}

/// A prefix of the stream never exceeds the whole stream.
pub proof fn lemma_aggregate_prefix_le(s: Seq<Emission>, j: int)
    requires
        0 <= j <= s.len(),
    ensures
        aggregate(s.take(j)).size <= aggregate(s).size,
        aggregate(s.take(j)).processed <= aggregate(s).processed,
        aggregate(s.take(j)).error <= aggregate(s).error,
    decreases s.len(),
{
    if j == s.len() {
        assert(s.take(j) =~= s);
    } else {
        assert(s.drop_last().take(j) =~= s.take(j));
        lemma_aggregate_prefix_le(s.drop_last(), j);
        lemma_agg_step_ge(aggregate(s.drop_last()), s.last().outcome);
    }
}

/// Two aggregation steps commute: the order in which two outcomes
/// arrive does not matter.
pub proof fn lemma_agg_step_commutes(t: AggModel, a: Outcome, b: Outcome)
    ensures
        agg_step(agg_step(t, a), b) == agg_step(agg_step(t, b), a),
{
}

/// Taking one emission out of the middle of the stream takes exactly
/// one aggregation step out.
pub proof fn lemma_aggregate_remove(s: Seq<Emission>, j: int)
    requires
        0 <= j < s.len(),
    ensures
        aggregate(s) == agg_step(aggregate(s.remove(j)), s[j].outcome),
    decreases s.len(),
{
    if j == s.len() - 1 {
        assert(s.remove(j) =~= s.drop_last());
    } else {
        assert(s.remove(j).drop_last() =~= s.drop_last().remove(j));
        assert(s.remove(j).last() == s.last());
        lemma_aggregate_remove(s.drop_last(), j);
        lemma_agg_step_commutes(aggregate(s.drop_last().remove(j)), s[j].outcome, s.last().outcome);
    }
}

/// Aggregation does not depend on arrival order: two streams that hold
/// the same emissions, however interleaved, aggregate to the same
/// state.
pub proof fn lemma_aggregate_order_independent(a: Seq<Emission>, b: Seq<Emission>)
    requires
        a.to_multiset() == b.to_multiset(),
    ensures
        aggregate(a) == aggregate(b),
    decreases a.len(),
{
    broadcast use vstd::seq_lib::group_to_multiset_ensures;

    if a.len() == 0 {
        assert(a.to_multiset().len() == a.len());
        assert(b.to_multiset().len() == b.len());
        assert(b.len() == 0);
    } else {
        let x = a.last();
        assert(a.drop_last().push(x) =~= a);
        assert(a.to_multiset() == a.drop_last().to_multiset().insert(x));
        assert(b.to_multiset().count(x) > 0);
        assert(b.contains(x));
        let j = choose|j: int| 0 <= j < b.len() && b[j] == x;
        assert(b.remove(j).to_multiset() == b.to_multiset().remove(x));
        assert(a.drop_last().to_multiset() =~= b.remove(j).to_multiset());
        lemma_aggregate_order_independent(a.drop_last(), b.remove(j));
        lemma_aggregate_remove(b, j);
    }
}

} // verus!
