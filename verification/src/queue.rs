//! Priority queue of liquidation opportunities ordered by net profit, and the
//! per-cycle batcher that drains the best of them.

use vstd::prelude::*;
use vstd::multiset::Multiset;

verus! {

broadcast use vstd::seq_lib::group_to_multiset_ensures;

/// A scored, ready-to-execute liquidation.
///
/// `profit_rank` is an integer image of the net USD profit that orders
/// opportunities exactly as their profits do: a higher rank is a more
/// profitable liquidation.
#[derive(Debug, Clone)]
pub struct Opportunity<P> {
    pub position: P,
    pub profit_rank: i64,
}

/// Max-queue: `pop_best` always returns the most profitable opportunity.
pub struct OpportunityQueue<P> {
    items: Vec<Opportunity<P>>,
}

impl<P> View for OpportunityQueue<P> {
    type V = Multiset<Opportunity<P>>;

    /// The opportunities held, without order.
    closed spec fn view(&self) -> Multiset<Opportunity<P>> {
        self.items@.to_multiset()
    }
}

/// `o` ranks at least as high as every opportunity in `m`.
pub open spec fn is_best_of<P>(o: Opportunity<P>, m: Multiset<Opportunity<P>>) -> bool {
    forall|x: Opportunity<P>| m.contains(x) ==> x.profit_rank <= o.profit_rank
}

impl<P> OpportunityQueue<P> {
    /// An empty queue.
    pub fn new() -> (q: Self)
        ensures
            q@ == Multiset::<Opportunity<P>>::empty(),
    {
        let q = OpportunityQueue { items: Vec::new() };
        proof {
            assert(q.items@.to_multiset().len() == 0);
            assert(q.items@.to_multiset() =~= Multiset::<Opportunity<P>>::empty());
        }
        q
    }

    /// Add an opportunity.
    pub fn push(&mut self, opp: Opportunity<P>)
        ensures
            final(self)@ == old(self)@.insert(opp),
    {
        self.items.push(opp);
    }

    /// Remove and return a most profitable opportunity, or `None` when empty.
    pub fn pop_best(&mut self) -> (best: Option<Opportunity<P>>)
        ensures
            old(self)@.len() == 0 ==> best is None && final(self)@ == old(self)@,
            old(self)@.len() > 0 ==> (best matches Some(o) && old(self)@.contains(o)
                && is_best_of(o, old(self)@) && final(self)@ == old(self)@.remove(o)),
    {
        let n = self.items.len();
        if n == 0 {
            return None;
        }
        let mut best: usize = 0;
        let mut i: usize = 1;
        while i < n
            invariant
                n == self.items@.len(),
                self.items@ == old(self).items@,
                0 <= best < i <= n,
                forall|j: int| 0 <= j < i ==> self.items@[j].profit_rank
                    <= #[trigger] self.items@[best as int].profit_rank,
            decreases n - i,
        {
            if self.items[i].profit_rank > self.items[best].profit_rank {
                best = i;
            }
            i = i + 1;
        }
        let ghost s = self.items@;
        let o = self.items.remove(best);
        proof {
            assert(s.to_multiset().count(o) > 0);
            assert forall|x: Opportunity<P>| s.to_multiset().contains(x) implies x.profit_rank
                <= o.profit_rank by {
                assert(s.to_multiset().count(x) > 0);
                let j = choose|j: int| 0 <= j < s.len() && s[j] == x;
                assert(s[j].profit_rank <= s[best as int].profit_rank);
            }
        }
        Some(o)
    }

    /// Number of queued opportunities.
    pub fn len(&self) -> (n: usize)
        ensures
            n == self@.len(),
    {
        self.items.len()
    }

    /// Whether the queue holds no opportunity.
    pub fn is_empty(&self) -> (b: bool)
        ensures
            b == (self@.len() == 0),
    {
        self.items.len() == 0
    }
}

/// Per-cycle batching limits.
#[derive(Debug, Clone, Copy)]
pub struct BatchConfig {
    pub max_per_cycle: usize,
}

impl Default for BatchConfig {
    fn default() -> (c: Self)
        ensures
            c.max_per_cycle == 4,
    {
        BatchConfig { max_per_cycle: 4 }
    }
}

/// `batch` is ordered from the highest profit rank down.
pub open spec fn ranked_descending<P>(batch: Seq<Opportunity<P>>) -> bool {
    forall|i: int, j: int|
        0 <= i < j < batch.len() ==> batch[j].profit_rank <= batch[i].profit_rank
}

/// Pop up to `max` best opportunities, highest profit first.
///
/// The batch holds `min(max, len)` opportunities in descending profit order,
/// every one of them at least as profitable as anything left in the queue,
/// and batch plus remainder is exactly what the queue held before.
pub fn take_batch<P>(queue: &mut OpportunityQueue<P>, max: usize) -> (batch: Vec<Opportunity<P>>)
    ensures
        batch@.len() == if max < old(queue)@.len() { max as int } else { old(queue)@.len() as int },
        ranked_descending(batch@),
        forall|i: int, x: Opportunity<P>|
            0 <= i < batch@.len() && #[trigger] final(queue)@.contains(x) ==> x.profit_rank
                <= #[trigger] batch@[i].profit_rank,
        batch@.to_multiset().add(final(queue)@) == old(queue)@,
{
    let mut batch: Vec<Opportunity<P>> = Vec::new();
    proof {
        assert(batch@.to_multiset() =~= Multiset::<Opportunity<P>>::empty());
        assert(batch@.to_multiset().add(queue@) =~= queue@);
    }
    while batch.len() < max
        invariant
            batch@.len() <= max,
            ranked_descending(batch@),
            forall|i: int, x: Opportunity<P>|
                0 <= i < batch@.len() && #[trigger] queue@.contains(x) ==> x.profit_rank
                    <= #[trigger] batch@[i].profit_rank,
            batch@.to_multiset().add(queue@) == old(queue)@,
        ensures
            batch@.len() <= max,
            ranked_descending(batch@),
            forall|i: int, x: Opportunity<P>|
                0 <= i < batch@.len() && #[trigger] queue@.contains(x) ==> x.profit_rank
                    <= #[trigger] batch@[i].profit_rank,
            batch@.to_multiset().add(queue@) == old(queue)@,
            batch@.len() == max || queue@.len() == 0,
        decreases max - batch@.len(),
    {
        let ghost prev_batch = batch@;
        let ghost prev_queue = queue@;
        match queue.pop_best() {
            Some(opp) => {
                batch.push(opp);
                proof {
                    assert(batch@ == prev_batch.push(opp));
                    assert(batch@.to_multiset() == prev_batch.to_multiset().insert(opp));
                    assert(batch@.to_multiset().add(queue@) =~= prev_batch.to_multiset().add(
                        prev_queue,
                    ));
                    assert forall|i: int, x: Opportunity<P>|
                        0 <= i < batch@.len() && #[trigger] queue@.contains(x) implies x.profit_rank
                        <= #[trigger] batch@[i].profit_rank by {
                        assert(prev_queue.contains(x));
                        if i < prev_batch.len() {
                            assert(batch@[i] == prev_batch[i]);
                        }
                    }
                    assert forall|i: int, j: int|
                        0 <= i < j < batch@.len() implies batch@[j].profit_rank
                        <= batch@[i].profit_rank by {
                        if j == prev_batch.len() {
                            assert(prev_queue.contains(opp));
                            assert(batch@[i] == prev_batch[i]);
                        } else {
                            assert(batch@[i] == prev_batch[i]);
                            assert(batch@[j] == prev_batch[j]);
                        }
                    }
                }
            },
            None => {
                break ;
            },
        }
    }
    proof {
        assert(batch@.to_multiset().len() == batch@.len());
    }
    batch
}

} // verus!
