//! Chain-head tracking: turns each observed head into the block numbers that
//! appeared since the previous observation.

use vstd::prelude::*;
use std::sync::Arc;

verus! {

/// Follows the chain head through a client.
pub struct BlockListener<C> {
    client: Arc<C>,
    last_seen: u64,
}

/// The block numbers `start..=end`, in order.
pub open spec fn block_span(start: u64, end: u64) -> Seq<u64> {
    Seq::new((end - start + 1) as nat, |i: int| (start + i) as u64)
}

/// The blocks a listener that last saw `last_seen` reports for a new head
/// `latest`: nothing when the head has not advanced, only the head itself on
/// the first observation, and the whole gap after that.
pub open spec fn new_blocks(last_seen: u64, latest: u64) -> Seq<u64> {
    if latest <= last_seen {
        Seq::empty()
    } else if last_seen == 0 {
        seq![latest]
    } else {
        block_span((last_seen + 1) as u64, latest)
    }
}

impl<C> BlockListener<C> {
    /// The highest block number observed so far (0 before the first).
    pub closed spec fn spec_last_seen(&self) -> u64 {
        self.last_seen
    }

    /// The client the listener reads the head through.
    pub closed spec fn spec_client(&self) -> Arc<C> {
        self.client
    }

    /// A listener that has seen no block yet.
    pub fn new(client: Arc<C>) -> (l: Self)
        ensures
            l.last_seen() == 0,
            l.spec_client() == client,
    {
        BlockListener { client, last_seen: 0 }
    }

    /// The highest block number observed so far (0 before the first).
    #[verifier::when_used_as_spec(spec_last_seen)]
    pub fn last_seen(&self) -> (n: u64)
        ensures
            n == self.last_seen(),
    {
        self.last_seen
    }

    /// The client the listener reads the head through.
    pub fn client(&self) -> (c: &Arc<C>)
        ensures
            *c == self.spec_client(),
    {
        &self.client
    }

    /// Record a newly observed head and return the block numbers that
    /// appeared since the previous observation. The first observation
    /// reports only the head (no historical backfill).
    pub fn observe_head(&mut self, latest: u64) -> (blocks: Vec<u64>)
        ensures
            blocks@ == new_blocks(old(self).last_seen(), latest),
            final(self).last_seen() == if latest <= old(self).last_seen() {
                old(self).last_seen()
            } else {
                latest
            },
            final(self).spec_client() == old(self).spec_client(),
    {
        let mut blocks: Vec<u64> = Vec::new();
        if latest <= self.last_seen {
            proof {
                assert(blocks@ =~= new_blocks(self.last_seen, latest));
            }
            return blocks;
        }
        let start = if self.last_seen == 0 { latest } else { self.last_seen + 1 };
        let ghost expected = block_span(start, latest);
        let mut b = start;
        loop
            invariant_except_break
                start <= b <= latest,
                blocks@ == block_span(start, latest).take(b - start),
            ensures
                blocks@ == block_span(start, latest),
            decreases latest - b,
        {
            blocks.push(b);
            if b == latest {
                proof {
                    assert(blocks@ =~= block_span(start, latest));
                }
                break ;
            }
            proof {
                assert(blocks@ =~= block_span(start, latest).take(b + 1 - start));
            }
            b = b + 1;
        }
        self.last_seen = latest;
        proof {
            if old(self).last_seen == 0 {
                assert(blocks@ =~= seq![latest]);
            }
        }
        blocks
    }
}

/// What an observation reports: nothing unless the head advanced; on the
/// first observation the head alone; after that every block above the last
/// one seen up to the head, once each and in order.
pub proof fn lemma_new_blocks_are_the_gap(last_seen: u64, latest: u64)
    ensures
        latest <= last_seen ==> new_blocks(last_seen, latest).len() == 0,
        latest > last_seen && last_seen == 0 ==> new_blocks(last_seen, latest) == seq![latest],
        latest > last_seen && last_seen > 0 ==> {
            &&& new_blocks(last_seen, latest).len() == latest - last_seen
            &&& forall|i: int|
                0 <= i < latest - last_seen ==> #[trigger] new_blocks(last_seen, latest)[i]
                    == last_seen + 1 + i
        },
{
}

/// Consecutive observations report contiguous, non-overlapping runs of
/// blocks: after the first report, each new run starts right after the last
/// block reported before it.
pub proof fn lemma_observations_are_contiguous(last_seen: u64, first: u64, second: u64)
    requires
        new_blocks(last_seen, first).len() > 0,
        new_blocks(first, second).len() > 0,
    ensures
        new_blocks(first, second)[0] == new_blocks(last_seen, first).last() + 1,
        new_blocks(first, second).last() == second,
        new_blocks(last_seen, first).last() == first,
{
}

} // verus!
